//! The authorization ledger: upload rights granted to and consumed by each
//! scope, and their expiry.
use vstd::prelude::*;

use std::collections::HashMap;

use crate::error::Error;

verus! {

broadcast use vstd::std_specs::hash::group_hash_axioms;

/// Identity of an account.
pub type AccountId = u64;

/// Hash of a stored blob of data.
pub type PreimageHash = [u8; 32];

/// Number of transactions and bytes covered by one or more authorizations.
#[derive(Clone, Copy, Debug, PartialEq, Eq, Structural)]
pub struct AuthorizationExtent {
    /// Number of transactions.
    pub transactions: u32,
    /// Number of bytes.
    pub bytes: u64,
}

impl Default for AuthorizationExtent {
    fn default() -> (r: Self)
        ensures
            r == zero_extent(),
    {
        AuthorizationExtent { transactions: 0, bytes: 0 }
    }
}

/// Usage of the unexpired authorizations of one scope.
#[derive(Clone, Copy, Debug, PartialEq, Eq, Structural)]
pub struct AuthorizationUsage {
    /// Extent of the authorizations already used. An expiring authorization is
    /// charged against this pool first.
    pub used: AuthorizationExtent,
    /// Extent of the authorizations not yet used.
    pub unused: AuthorizationExtent,
}

/// Who or what an authorization applies to.
#[derive(Clone, Copy, Debug)]
pub enum AuthorizationScope {
    /// The given account may store arbitrary data.
    Account(AccountId),
    /// Anyone may store the data with the given hash.
    Preimage(PreimageHash),
}

/// The mathematical value of a scope.
pub enum ScopeView {
    Account(AccountId),
    Preimage(Seq<u8>),
}

impl View for AuthorizationScope {
    type V = ScopeView;

    open spec fn view(&self) -> ScopeView {
        match self {
            AuthorizationScope::Account(a) => ScopeView::Account(*a),
            AuthorizationScope::Preimage(h) => ScopeView::Preimage(h@),
        }
    }
}

/// An authorization to store data, kept under its expiry block.
#[derive(Clone, Copy, Debug)]
pub struct Authorization {
    /// Scope of the authorization.
    pub scope: AuthorizationScope,
    /// Extent of the authorization.
    pub extent: AuthorizationExtent,
}

pub open spec fn zero_extent() -> AuthorizationExtent {
    AuthorizationExtent { transactions: 0, bytes: 0 }
}

pub open spec fn zero_usage() -> AuthorizationUsage {
    AuthorizationUsage { used: zero_extent(), unused: zero_extent() }
}

/// `a - b`, saturated at zero.
pub open spec fn sat_sub(a: int, b: int) -> int {
    if a >= b {
        a - b
    } else {
        0
    }
}

/// `a + b`, saturated at `max`.
pub open spec fn sat_add(a: int, b: int, max: int) -> int {
    if a + b > max {
        max
    } else {
        a + b
    }
}

/// `u` with `transactions` and `bytes` more unused rights (saturating).
pub open spec fn credited(u: AuthorizationUsage, transactions: u32, bytes: u64) -> AuthorizationUsage {
    AuthorizationUsage {
        used: u.used,
        unused: AuthorizationExtent {
            transactions: sat_add(u.unused.transactions as int, transactions as int, u32::MAX as int)
                as u32,
            bytes: sat_add(u.unused.bytes as int, bytes as int, u64::MAX as int) as u64,
        },
    }
}

/// Whether `u` has rights left for one transaction of `size` bytes.
pub open spec fn can_consume(u: AuthorizationUsage, size: u32) -> bool {
    u.unused.transactions >= 1 && u.unused.bytes >= size
}

/// `u` after one transaction of `size` bytes moved from unused to used.
pub open spec fn consumed(u: AuthorizationUsage, size: u32) -> AuthorizationUsage {
    AuthorizationUsage {
        used: AuthorizationExtent {
            transactions: sat_add(u.used.transactions as int, 1, u32::MAX as int) as u32,
            bytes: sat_add(u.used.bytes as int, size as int, u64::MAX as int) as u64,
        },
        unused: AuthorizationExtent {
            transactions: (u.unused.transactions - 1) as u32,
            bytes: (u.unused.bytes - size) as u64,
        },
    }
}

/// `u` after an authorization of extent `e` expires: the used pool is charged
/// first, and what of `e` it did not cover leaves the unused pool.
pub open spec fn expired_by(u: AuthorizationUsage, e: AuthorizationExtent) -> AuthorizationUsage {
    let unused_transactions = sat_sub(e.transactions as int, u.used.transactions as int);
    let unused_bytes = sat_sub(e.bytes as int, u.used.bytes as int);
    AuthorizationUsage {
        used: AuthorizationExtent {
            transactions: sat_sub(u.used.transactions as int, e.transactions as int) as u32,
            bytes: sat_sub(u.used.bytes as int, e.bytes as int) as u64,
        },
        unused: AuthorizationExtent {
            transactions: sat_sub(u.unused.transactions as int, unused_transactions) as u32,
            bytes: sat_sub(u.unused.bytes as int, unused_bytes) as u64,
        },
    }
}

/// The usage of scope `s` after the authorizations of `list` that apply to it
/// expire in order, starting from `u`.
pub open spec fn expired_all(u: AuthorizationUsage, list: Seq<Authorization>, s: ScopeView) -> AuthorizationUsage
    decreases list.len(),
{
    if list.len() == 0 {
        u
    } else {
        let before = expired_all(u, list.drop_last(), s);
        if list.last().scope@ == s {
            expired_by(before, list.last().extent)
        } else {
            before
        }
    }
}

/// No scope has two entries.
pub open spec fn keys_unique(entries: Seq<(AuthorizationScope, AuthorizationUsage)>) -> bool {
    forall|i: int, j: int|
        0 <= i < entries.len() && 0 <= j < entries.len() && i != j ==> (#[trigger] entries[i]).0@
            != (#[trigger] entries[j]).0@
}

/// The usage recorded for scope `s`, zero when it has no entry.
pub open spec fn usage_in(entries: Seq<(AuthorizationScope, AuthorizationUsage)>, s: ScopeView) -> AuthorizationUsage {
    if exists|i: int| 0 <= i < entries.len() && (#[trigger] entries[i]).0@ == s {
        entries[choose|i: int| 0 <= i < entries.len() && (#[trigger] entries[i]).0@ == s].1
    } else {
        zero_usage()
    }
}

proof fn lemma_usage_at(entries: Seq<(AuthorizationScope, AuthorizationUsage)>, j: int)
    requires
        keys_unique(entries),
        0 <= j < entries.len(),
    ensures
        usage_in(entries, entries[j].0@) == entries[j].1,
{
    let s = entries[j].0@;
    assert(0 <= j < entries.len() && entries[j].0@ == s);
    let c = choose|i: int| 0 <= i < entries.len() && (#[trigger] entries[i]).0@ == s;
    assert(c == j);
}

/// Whether two scopes are the same.
pub fn same_scope(a: &AuthorizationScope, b: &AuthorizationScope) -> (r: bool)
    ensures
        r == (a@ == b@),
{
    match a {
        AuthorizationScope::Account(x) => match b {
            AuthorizationScope::Account(y) => *x == *y,
            AuthorizationScope::Preimage(_) => false,
        },
        AuthorizationScope::Preimage(x) => match b {
            AuthorizationScope::Account(_) => false,
            AuthorizationScope::Preimage(y) => same_hash(x, y),
        },
    }
}

/// Whether two 32-byte hashes are equal.
pub fn same_hash(x: &[u8; 32], y: &[u8; 32]) -> (r: bool)
    ensures
        r == (x@ == y@),
{
    let mut i: usize = 0;
    while i < 32
        invariant
            0 <= i <= 32,
            x@.len() == 32,
            y@.len() == 32,
            forall|k: int| 0 <= k < i ==> x@[k] == y@[k],
        decreases 32 - i,
    {
        if x[i] != y[i] {
            assert(x@[i as int] != y@[i as int]);
            return false;
        }
        i = i + 1;
    }
    assert(x@ =~= y@);
    true
}

/// The ledger of authorizations: usage per scope, and the authorizations
/// that expire at each block.
pub struct Ledger {
    /// Usage per scope; a scope without an entry has zero usage.
    pub usage: Vec<(AuthorizationScope, AuthorizationUsage)>,
    /// Authorizations by expiry block.
    pub expiries: HashMap<u64, Vec<Authorization>>,
}

impl Ledger {
    pub open spec fn wf(&self) -> bool {
        keys_unique(self.usage@)
    }

    /// The usage of scope `s`.
    pub open spec fn usage_of(&self, s: ScopeView) -> AuthorizationUsage {
        usage_in(self.usage@, s)
    }

    /// The authorizations that expire at block `b`, in the order granted.
    pub open spec fn expiring_at(&self, b: u64) -> Seq<Authorization> {
        if self.expiries@.contains_key(b) {
            self.expiries@[b]@
        } else {
            Seq::empty()
        }
    }

    /// An empty ledger.
    pub fn new() -> (r: Ledger)
        ensures
            r.wf(),
            forall|s: ScopeView| #[trigger] r.usage_of(s) == zero_usage(),
            forall|b: u64| #[trigger] r.expiring_at(b) == Seq::<Authorization>::empty(),
    {
        Ledger { usage: Vec::new(), expiries: HashMap::new() }
    }

    fn find(&self, scope: &AuthorizationScope) -> (r: Option<usize>)
        ensures
            match r {
                Some(i) => i < self.usage@.len() && self.usage@[i as int].0@ == scope@,
                None => forall|i: int|
                    0 <= i < self.usage@.len() ==> (#[trigger] self.usage@[i]).0@ != scope@,
            },
    {
        let mut i: usize = 0;
        while i < self.usage.len()
            invariant
                0 <= i <= self.usage@.len(),
                forall|k: int| 0 <= k < i ==> (#[trigger] self.usage@[k]).0@ != scope@,
            decreases self.usage@.len() - i,
        {
            if same_scope(&self.usage[i].0, scope) {
                return Some(i);
            }
            i = i + 1;
        }
        None
    }

    /// The usage of `scope`.
    pub fn usage(&self, scope: &AuthorizationScope) -> (r: AuthorizationUsage)
        requires
            self.wf(),
        ensures
            r == self.usage_of(scope@),
    {
        match self.find(scope) {
            Some(i) => {
                proof {
                    lemma_usage_at(self.usage@, i as int);
                }
                self.usage[i].1
            },
            None => AuthorizationUsage {
                used: AuthorizationExtent { transactions: 0, bytes: 0 },
                unused: AuthorizationExtent { transactions: 0, bytes: 0 },
            },
        }
    }

    /// Sets the usage of `scope` to `u`; an all-zero usage removes its entry.
    fn put(&mut self, scope: AuthorizationScope, u: AuthorizationUsage)
        requires
            old(self).wf(),
        ensures
            final(self).wf(),
            final(self).expiries == old(self).expiries,
            forall|s: ScopeView| #[trigger]
                final(self).usage_of(s) == if s == scope@ {
                    u
                } else {
                    old(self).usage_of(s)
                },
    {
        let ghost old_entries = self.usage@;
        let is_zero = u.used.transactions == 0 && u.used.bytes == 0 && u.unused.transactions == 0
            && u.unused.bytes == 0;
        match self.find(&scope) {
            Some(i) => {
                if is_zero {
                    self.usage.remove(i);
                    proof {
                        let n = self.usage@;
                        assert(keys_unique(n)) by {
                            assert forall|a: int, b: int|
                                0 <= a < n.len() && 0 <= b < n.len() && a != b implies (
                            #[trigger] n[a]).0@ != (#[trigger] n[b]).0@ by {
                                let oa = if a < i { a } else { a + 1 };
                                let ob = if b < i { b } else { b + 1 };
                                assert(n[a] == old_entries[oa]);
                                assert(n[b] == old_entries[ob]);
                            }
                        }
                        assert forall|s: ScopeView| #[trigger]
                            usage_in(n, s) == if s == scope@ {
                                u
                            } else {
                                usage_in(old_entries, s)
                            } by {
                            if s == scope@ {
                                if exists|k: int| 0 <= k < n.len() && (#[trigger] n[k]).0@ == s {
                                    let k = choose|k: int| 0 <= k < n.len() && (#[trigger] n[k]).0@ == s;
                                    let ok = if k < i { k } else { k + 1 };
                                    assert(n[k] == old_entries[ok]);
                                }
                                assert(u == zero_usage());
                            } else {
                                if exists|k: int| 0 <= k < old_entries.len() && (#[trigger] old_entries[k]).0@ == s {
                                    let k = choose|k: int| 0 <= k < old_entries.len() && (#[trigger] old_entries[k]).0@ == s;
                                    lemma_usage_at(old_entries, k);
                                    let nk = if k < i { k } else { k - 1 };
                                    assert(n[nk] == old_entries[k]);
                                    lemma_usage_at(n, nk);
                                } else {
                                    if exists|k: int| 0 <= k < n.len() && (#[trigger] n[k]).0@ == s {
                                        let k = choose|k: int| 0 <= k < n.len() && (#[trigger] n[k]).0@ == s;
                                        let ok = if k < i { k } else { k + 1 };
                                        assert(n[k] == old_entries[ok]);
                                    }
                                }
                            }
                        }
                    }
                } else {
                    self.usage.set(i, (scope, u));
                    proof {
                        let n = self.usage@;
                        assert(keys_unique(n)) by {
                            assert forall|a: int, b: int|
                                0 <= a < n.len() && 0 <= b < n.len() && a != b implies (
                            #[trigger] n[a]).0@ != (#[trigger] n[b]).0@ by {
                                assert(n[a].0@ == old_entries[a].0@);
                                assert(n[b].0@ == old_entries[b].0@);
                            }
                        }
                        lemma_usage_at(n, i as int);
                        assert forall|s: ScopeView| #[trigger]
                            usage_in(n, s) == if s == scope@ {
                                u
                            } else {
                                usage_in(old_entries, s)
                            } by {
                            if s != scope@ {
                                if exists|k: int| 0 <= k < old_entries.len() && (#[trigger] old_entries[k]).0@ == s {
                                    let k = choose|k: int| 0 <= k < old_entries.len() && (#[trigger] old_entries[k]).0@ == s;
                                    lemma_usage_at(old_entries, k);
                                    assert(n[k] == old_entries[k]);
                                    lemma_usage_at(n, k);
                                } else {
                                    if exists|k: int| 0 <= k < n.len() && (#[trigger] n[k]).0@ == s {
                                        let k = choose|k: int| 0 <= k < n.len() && (#[trigger] n[k]).0@ == s;
                                        assert(n[k] == old_entries[k]);
                                    }
                                }
                            }
                        }
                    }
                }
            },
            None => {
                if !is_zero {
                    self.usage.push((scope, u));
                    proof {
                        let n = self.usage@;
                        let last = old_entries.len() as int;
                        assert(keys_unique(n)) by {
                            assert forall|a: int, b: int|
                                0 <= a < n.len() && 0 <= b < n.len() && a != b implies (
                            #[trigger] n[a]).0@ != (#[trigger] n[b]).0@ by {
                                if a < last {
                                    assert(n[a] == old_entries[a]);
                                }
                                if b < last {
                                    assert(n[b] == old_entries[b]);
                                }
                            }
                        }
                        lemma_usage_at(n, last);
                        assert forall|s: ScopeView| #[trigger]
                            usage_in(n, s) == if s == scope@ {
                                u
                            } else {
                                usage_in(old_entries, s)
                            } by {
                            if s != scope@ {
                                if exists|k: int| 0 <= k < old_entries.len() && (#[trigger] old_entries[k]).0@ == s {
                                    let k = choose|k: int| 0 <= k < old_entries.len() && (#[trigger] old_entries[k]).0@ == s;
                                    lemma_usage_at(old_entries, k);
                                    assert(n[k] == old_entries[k]);
                                    lemma_usage_at(n, k);
                                } else {
                                    if exists|k: int| 0 <= k < n.len() && (#[trigger] n[k]).0@ == s {
                                        let k = choose|k: int| 0 <= k < n.len() && (#[trigger] n[k]).0@ == s;
                                        assert(n[k] == old_entries[k]);
                                    }
                                }
                            }
                        }
                    }
                } else {
                    proof {
                        assert(u == zero_usage());
                    }
                }
            },
        }
    }

    /// Grants `scope` rights for `transactions` transactions and `bytes` bytes,
    /// which expire at block `expiry`. Fails when `max_per_block`
    /// authorizations already expire at that block.
    pub fn grant(
        &mut self,
        scope: AuthorizationScope,
        transactions: u32,
        bytes: u64,
        expiry: u64,
        max_per_block: u32,
    ) -> (r: Result<(), Error>)
        requires
            old(self).wf(),
        ensures
            final(self).wf(),
            r is Ok <==> old(self).expiring_at(expiry).len() < max_per_block,
            r is Ok ==> {
                &&& forall|s: ScopeView| #[trigger]
                    final(self).usage_of(s) == if s == scope@ {
                        credited(old(self).usage_of(s), transactions, bytes)
                    } else {
                        old(self).usage_of(s)
                    }
                &&& forall|b: u64| #[trigger]
                    final(self).expiring_at(b) == if b == expiry {
                        old(self).expiring_at(b).push(
                            Authorization {
                                scope,
                                extent: AuthorizationExtent { transactions, bytes },
                            },
                        )
                    } else {
                        old(self).expiring_at(b)
                    }
            },
            r is Err ==> r == Err::<(), Error>(Error::TooManyAuthorizations) && *final(self)
                == *old(self),
    {
        let pending: usize = match self.expiries.get(&expiry) {
            Some(v) => v.len(),
            None => 0,
        };
        if pending >= max_per_block as usize {
            return Err(Error::TooManyAuthorizations);
        }
        let u = self.usage(&scope);
        let credited_usage = AuthorizationUsage {
            used: u.used,
            unused: AuthorizationExtent {
                transactions: u.unused.transactions.saturating_add(transactions),
                bytes: u.unused.bytes.saturating_add(bytes),
            },
        };
        assert(credited_usage == credited(u, transactions, bytes));
        self.put(scope, credited_usage);
        let ghost mid = self.usage@;
        assert forall|s: ScopeView| #[trigger]
            usage_in(mid, s) == if s == scope@ {
                credited(old(self).usage_of(s), transactions, bytes)
            } else {
                old(self).usage_of(s)
            } by {
            assert(usage_in(mid, s) == self.usage_of(s));
        }
        let mut list = match self.expiries.remove(&expiry) {
            Some(v) => v,
            None => Vec::new(),
        };
        assert(list@ == old(self).expiring_at(expiry));
        list.push(Authorization { scope, extent: AuthorizationExtent { transactions, bytes } });
        self.expiries.insert(expiry, list);
        assert(self.expiring_at(expiry) == old(self).expiring_at(expiry).push(
            Authorization { scope, extent: AuthorizationExtent { transactions, bytes } },
        ));
        assert(self.expiries@ == old(self).expiries@.remove(expiry).insert(expiry, list));
        assert(self.usage@ == mid);
        assert forall|s: ScopeView| #[trigger]
            self.usage_of(s) == if s == scope@ {
                credited(old(self).usage_of(s), transactions, bytes)
            } else {
                old(self).usage_of(s)
            } by {
            assert(usage_in(mid, s) == self.usage_of(s));
        }
        assert forall|b: u64| b != expiry implies #[trigger] self.expiring_at(b) == old(
            self,
        ).expiring_at(b) by {
            assert(self.expiries@.contains_key(b) == old(self).expiries@.contains_key(b));
        }
        Ok(())
    }

    /// Charges one transaction of `size` bytes to `scope`. Fails when its
    /// unused rights cover no further transaction or fewer than `size` bytes.
    pub fn consume(&mut self, scope: AuthorizationScope, size: u32) -> (r: Result<(), Error>)
        requires
            old(self).wf(),
        ensures
            final(self).wf(),
            r is Ok <==> can_consume(old(self).usage_of(scope@), size),
            r is Ok ==> {
                &&& final(self).expiries == old(self).expiries
                &&& forall|s: ScopeView| #[trigger]
                    final(self).usage_of(s) == if s == scope@ {
                        consumed(old(self).usage_of(s), size)
                    } else {
                        old(self).usage_of(s)
                    }
            },
            r is Err ==> r == Err::<(), Error>(Error::NotAuthorized) && *final(self) == *old(self),
    {
        let u = self.usage(&scope);
        if u.unused.transactions < 1 || u.unused.bytes < size as u64 {
            return Err(Error::NotAuthorized);
        }
        let next = AuthorizationUsage {
            used: AuthorizationExtent {
                transactions: u.used.transactions.saturating_add(1),
                bytes: u.used.bytes.saturating_add(size as u64),
            },
            unused: AuthorizationExtent {
                transactions: u.unused.transactions - 1,
                bytes: u.unused.bytes - size as u64,
            },
        };
        self.put(scope, next);
        Ok(())
    }

    /// Expires the authorizations recorded for block `block`, in the order
    /// they were granted.
    pub fn expire(&mut self, block: u64)
        requires
            old(self).wf(),
        ensures
            final(self).wf(),
            forall|s: ScopeView| #[trigger]
                final(self).usage_of(s) == expired_all(
                    old(self).usage_of(s),
                    old(self).expiring_at(block),
                    s,
                ),
            forall|b: u64| #[trigger]
                final(self).expiring_at(b) == if b == block {
                    Seq::<Authorization>::empty()
                } else {
                    old(self).expiring_at(b)
                },
    {
        let ghost before = self.usage@;
        let list = match self.expiries.remove(&block) {
            Some(v) => v,
            None => Vec::new(),
        };
        assert(list@ == old(self).expiring_at(block));
        let mut i: usize = 0;
        while i < list.len()
            invariant
                0 <= i <= list@.len(),
                self.wf(),
                self.expiries@ == old(self).expiries@.remove(block),
                forall|s: ScopeView| #[trigger]
                    self.usage_of(s) == expired_all(usage_in(before, s), list@.take(i as int), s),
            decreases list@.len() - i,
        {
            let a = list[i];
            let u = self.usage(&a.scope);
            let next = expire_usage(u, a.extent);
            self.put(a.scope, next);
            proof {
                assert(list@.take(i + 1).drop_last() =~= list@.take(i as int));
                assert forall|s: ScopeView| #[trigger]
                    self.usage_of(s) == expired_all(usage_in(before, s), list@.take(i + 1), s) by {
                    assert(list@.take(i + 1).last() == a);
                }
            }
            i = i + 1;
        }
        assert(list@.take(list@.len() as int) =~= list@);
    }
}

/// The usage `u` after an authorization of extent `e` expires.
pub fn expire_usage(u: AuthorizationUsage, e: AuthorizationExtent) -> (r: AuthorizationUsage)
    ensures
        r == expired_by(u, e),
{
    let unused_transactions = e.transactions.saturating_sub(u.used.transactions);
    let unused_bytes = e.bytes.saturating_sub(u.used.bytes);
    AuthorizationUsage {
        used: AuthorizationExtent {
            transactions: u.used.transactions.saturating_sub(e.transactions),
            bytes: u.used.bytes.saturating_sub(e.bytes),
        },
        unused: AuthorizationExtent {
            transactions: u.unused.transactions.saturating_sub(unused_transactions),
            bytes: u.unused.bytes.saturating_sub(unused_bytes),
        },
    }
}

/// Total of `sizes`.
pub open spec fn sum_sizes(sizes: Seq<u32>) -> int
    decreases sizes.len(),
{
    if sizes.len() == 0 {
        0
    } else {
        sum_sizes(sizes.drop_last()) + sizes.last()
    }
}

/// Whether consuming transactions of `sizes` in turn, starting from `u`,
/// succeeds every time.
pub open spec fn consumes_succeed(u: AuthorizationUsage, sizes: Seq<u32>) -> bool
    decreases sizes.len(),
{
    if sizes.len() == 0 {
        true
    } else {
        consumes_succeed(u, sizes.drop_last()) && can_consume(
            after_consumes(u, sizes.drop_last()),
            sizes.last(),
        )
    }
}

/// The usage after consuming transactions of `sizes` in turn, starting from `u`.
pub open spec fn after_consumes(u: AuthorizationUsage, sizes: Seq<u32>) -> AuthorizationUsage
    decreases sizes.len(),
{
    if sizes.len() == 0 {
        u
    } else {
        consumed(after_consumes(u, sizes.drop_last()), sizes.last())
    }
}

/// After a grant of `transactions` transactions and `bytes` bytes to a scope
/// with no usage, consumption succeeds as long as the transactions consumed
/// and their total size stay within the grant, and the call that would exceed
/// either bound fails.
pub proof fn lemma_consume_within_grant(transactions: u32, bytes: u64, sizes: Seq<u32>)
    requires
        sizes.len() <= transactions,
        sum_sizes(sizes) <= bytes,
    ensures
        consumes_succeed(credited(zero_usage(), transactions, bytes), sizes),
        after_consumes(credited(zero_usage(), transactions, bytes), sizes) == (AuthorizationUsage {
            used: AuthorizationExtent {
                transactions: sizes.len() as u32,
                bytes: sum_sizes(sizes) as u64,
            },
            unused: AuthorizationExtent {
                transactions: (transactions - sizes.len()) as u32,
                bytes: (bytes - sum_sizes(sizes)) as u64,
            },
        }),
        forall|next: u32|
            #[trigger] can_consume(after_consumes(credited(zero_usage(), transactions, bytes), sizes), next)
                <==> (sizes.len() + 1 <= transactions && sum_sizes(sizes) + next <= bytes),
    decreases sizes.len(),
{
    let start = credited(zero_usage(), transactions, bytes);
    if sizes.len() > 0 {
        let prefix = sizes.drop_last();
        lemma_sum_sizes_grows(sizes);
        lemma_consume_within_grant(transactions, bytes, prefix);
        let u = after_consumes(start, prefix);
        assert(can_consume(u, sizes.last()));
        assert(after_consumes(start, sizes) == consumed(u, sizes.last()));
    } else {
        assert(sum_sizes(sizes) == 0);
        assert(after_consumes(start, sizes) == start);
    }
}

proof fn lemma_sum_sizes_grows(sizes: Seq<u32>)
    requires
        sizes.len() > 0,
    ensures
        sum_sizes(sizes.drop_last()) + sizes.last() == sum_sizes(sizes),
        sum_sizes(sizes.drop_last()) <= sum_sizes(sizes),
        0 <= sum_sizes(sizes.drop_last()),
{
    lemma_sum_sizes_non_negative(sizes.drop_last());
}

proof fn lemma_sum_sizes_non_negative(sizes: Seq<u32>)
    ensures
        0 <= sum_sizes(sizes),
    decreases sizes.len(),
{
    if sizes.len() > 0 {
        lemma_sum_sizes_non_negative(sizes.drop_last());
    }
}

/// Once a grant to a scope with no usage expires, the scope keeps no part of
/// it, unused or used, however much of it was consumed before.
pub proof fn lemma_expiry_clears_grant(transactions: u32, bytes: u64, sizes: Seq<u32>)
    requires
        consumes_succeed(credited(zero_usage(), transactions, bytes), sizes),
    ensures
        expired_by(
            after_consumes(credited(zero_usage(), transactions, bytes), sizes),
            AuthorizationExtent { transactions, bytes },
        ) == zero_usage(),
{
    lemma_consumes_balance(transactions, bytes, sizes);
    lemma_sum_sizes_non_negative(sizes);
    let u = after_consumes(credited(zero_usage(), transactions, bytes), sizes);
    assert(u.used.transactions as int == sizes.len());
    assert(u.used.bytes as int == sum_sizes(sizes));
    assert(u.unused.transactions as int == transactions - sizes.len());
    assert(u.unused.bytes as int == bytes - sum_sizes(sizes));
}

proof fn lemma_consumes_balance(transactions: u32, bytes: u64, sizes: Seq<u32>)
    requires
        consumes_succeed(credited(zero_usage(), transactions, bytes), sizes),
    ensures
        sizes.len() <= transactions,
        sum_sizes(sizes) <= bytes,
        after_consumes(credited(zero_usage(), transactions, bytes), sizes).used == (
        AuthorizationExtent { transactions: sizes.len() as u32, bytes: sum_sizes(sizes) as u64 }),
        after_consumes(credited(zero_usage(), transactions, bytes), sizes).unused == (
        AuthorizationExtent {
            transactions: (transactions - sizes.len()) as u32,
            bytes: (bytes - sum_sizes(sizes)) as u64,
        }),
    decreases sizes.len(),
{
    let start = credited(zero_usage(), transactions, bytes);
    if sizes.len() > 0 {
        let prefix = sizes.drop_last();
        lemma_sum_sizes_grows(sizes);
        lemma_consumes_balance(transactions, bytes, prefix);
        let u = after_consumes(start, prefix);
        assert(can_consume(u, sizes.last()));
        assert(after_consumes(start, sizes) == consumed(u, sizes.last()));
    } else {
        assert(sum_sizes(sizes) == 0);
        assert(after_consumes(start, sizes) == start);
    }
}

} // verus!
