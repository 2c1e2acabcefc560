//! Retry-policy resolution for cluster transactions, and the transaction
//! templates built from it.

use vstd::prelude::*;
use vstd::string::StringSliceAdditionalSpecFns;
use tikv_client::{Backoff, CheckLevel, RetryOptions, TransactionOptions};

verus! {

#[verifier::external_type_specification]
#[verifier::external_body]
pub struct ExBackoff(Backoff);

#[verifier::external_type_specification]
#[verifier::external_body]
pub struct ExRetryOptions(RetryOptions);

#[verifier::external_type_specification]
#[verifier::external_body]
pub struct ExTransactionOptions(TransactionOptions);

#[verifier::external_type_specification]
pub struct ExCheckLevel(CheckLevel);

/// The backoff that `Backoff::no_jitter_backoff` builds from these arguments.
pub uninterp spec fn no_jitter_of(base_delay_ms: u64, max_delay_ms: u64, max_attempts: u32) -> Backoff;

/// The backoff that `Backoff::full_jitter_backoff` builds from these arguments.
pub uninterp spec fn full_jitter_of(base_delay_ms: u64, max_delay_ms: u64, max_attempts: u32) -> Backoff;

/// The backoff that `Backoff::equal_jitter_backoff` builds from these arguments.
pub uninterp spec fn equal_jitter_of(base_delay_ms: u64, max_delay_ms: u64, max_attempts: u32) -> Backoff;

/// The backoff that `Backoff::decorrelated_jitter_backoff` builds from these
/// arguments.
pub uninterp spec fn decorrelated_jitter_of(
    base_delay_ms: u64,
    max_delay_ms: u64,
    max_attempts: u32,
) -> Backoff;

/// Whether the backoff is of the kind that never waits, as
/// `Backoff::is_none` reports.
pub uninterp spec fn is_none_of(backoff: Backoff) -> bool;

/// Relies on `Backoff::no_backoff`: a policy that never waits.
pub assume_specification[ Backoff::no_backoff ]() -> (r: Backoff)
    ensures
        is_none_of(r),
;

/// Relies on `Backoff::no_jitter_backoff`: a doubling delay clamped to the
/// maximum; the result is a plain record of its arguments.
pub assume_specification[ Backoff::no_jitter_backoff ](
    base_delay_ms: u64,
    max_delay_ms: u64,
    max_attempts: u32,
) -> (r: Backoff)
    ensures
        r == no_jitter_of(base_delay_ms, max_delay_ms, max_attempts),
        !is_none_of(r),
;

/// Relies on `Backoff::full_jitter_backoff`, which panics unless both delays
/// are positive.
pub assume_specification[ Backoff::full_jitter_backoff ](
    base_delay_ms: u64,
    max_delay_ms: u64,
    max_attempts: u32,
) -> (r: Backoff)
    requires
        base_delay_ms > 0 && max_delay_ms > 0,
    ensures
        r == full_jitter_of(base_delay_ms, max_delay_ms, max_attempts),
        !is_none_of(r),
;

/// Relies on `Backoff::equal_jitter_backoff`, which panics unless both delays
/// exceed one millisecond.
pub assume_specification[ Backoff::equal_jitter_backoff ](
    base_delay_ms: u64,
    max_delay_ms: u64,
    max_attempts: u32,
) -> (r: Backoff)
    requires
        base_delay_ms > 1 && max_delay_ms > 1,
    ensures
        r == equal_jitter_of(base_delay_ms, max_delay_ms, max_attempts),
        !is_none_of(r),
;

/// Relies on `Backoff::decorrelated_jitter_backoff`, which panics unless the
/// base delay is positive.
pub assume_specification[ Backoff::decorrelated_jitter_backoff ](
    base_delay_ms: u64,
    max_delay_ms: u64,
    max_attempts: u32,
) -> (r: Backoff)
    requires
        base_delay_ms > 0,
    ensures
        r == decorrelated_jitter_of(base_delay_ms, max_delay_ms, max_attempts),
        !is_none_of(r),
;

/// Relies on the derived `Clone` of `Backoff`, which copies every field.
pub assume_specification[ <Backoff as Clone>::clone ](b: &Backoff) -> (r: Backoff)
    ensures
        r == *b,
;

/// Retry options whose region and lock policies are these two backoffs, as
/// `RetryOptions::new` builds them.
pub uninterp spec fn retry_pair_of(region_backoff: Backoff, lock_backoff: Backoff) -> RetryOptions;

/// The options with their drop check set to `level`, as
/// `TransactionOptions::drop_check` returns them.
pub uninterp spec fn drop_check_of(options: TransactionOptions, level: CheckLevel) -> TransactionOptions;

/// The options with their retry options replaced, as
/// `TransactionOptions::retry_options` returns them.
pub uninterp spec fn retry_options_of(
    options: TransactionOptions,
    retry: RetryOptions,
) -> TransactionOptions;

/// The options marked read-only, as `TransactionOptions::read_only` returns them.
pub uninterp spec fn read_only_of(options: TransactionOptions) -> TransactionOptions;

/// Whether the options describe a pessimistic transaction, as
/// `TransactionOptions::is_pessimistic` reports.
pub uninterp spec fn pessimistic_of(options: TransactionOptions) -> bool;

/// Relies on `RetryOptions::new` (a derived constructor): a record of the
/// region and lock backoff policies.
pub assume_specification[ RetryOptions::new ](
    region_backoff: Backoff,
    lock_backoff: Backoff,
) -> (r: RetryOptions)
    ensures
        r == retry_pair_of(region_backoff, lock_backoff),
;

/// Relies on `TransactionOptions::new_pessimistic`: default options of a
/// pessimistic transaction.
pub assume_specification[ TransactionOptions::new_pessimistic ]() -> (r: TransactionOptions)
    ensures
        pessimistic_of(r),
;

/// Relies on `TransactionOptions::new_optimistic`: default options of an
/// optimistic transaction.
pub assume_specification[ TransactionOptions::new_optimistic ]() -> (r: TransactionOptions)
    ensures
        !pessimistic_of(r),
;

/// Relies on `TransactionOptions::drop_check`: sets what an uncommitted drop
/// does and keeps the transaction kind.
pub assume_specification[ TransactionOptions::drop_check ](
    options: TransactionOptions,
    level: CheckLevel,
) -> (r: TransactionOptions)
    ensures
        r == drop_check_of(options, level),
        pessimistic_of(r) == pessimistic_of(options),
;

/// Relies on `TransactionOptions::retry_options`: replaces the retry options
/// and keeps the transaction kind.
pub assume_specification[ TransactionOptions::retry_options ](
    options: TransactionOptions,
    retry: RetryOptions,
) -> (r: TransactionOptions)
    ensures
        r == retry_options_of(options, retry),
        pessimistic_of(r) == pessimistic_of(options),
;

/// Relies on `TransactionOptions::read_only`: marks the transaction read-only
/// and keeps the transaction kind.
pub assume_specification[ TransactionOptions::read_only ](
    options: TransactionOptions,
) -> (r: TransactionOptions)
    ensures
        r == read_only_of(options),
        pessimistic_of(r) == pessimistic_of(options),
;

/// How the wait between two attempts of a transaction is chosen.
#[derive(PartialEq, Eq, Structural, Clone, Copy, Debug)]
pub enum BackoffKind {
    /// No waiting, no retry.
    NoRetry,
    /// A random wait between zero and the doubling envelope.
    FullJitter,
    /// A random wait in the upper half of the doubling envelope.
    EqualJitter,
    /// A random wait derived from the previous one.
    DecorrelatedJitter,
    /// The doubling envelope itself, without randomness.
    NoJitter,
}

/// Default smallest wait, in milliseconds.
pub const DEFAULT_MIN_DELAY_MS: u64 = 500;

/// Default largest wait, in milliseconds.
pub const DEFAULT_MAX_DELAY_MS: u64 = 2000;

/// Default number of attempts before a transaction fails for good.
pub const DEFAULT_MAX_ATTEMPTS: u32 = 30;

impl BackoffKind {
    /// The kind that a configured name selects: an absent name selects
    /// decorrelated jitter, an unknown one full jitter.
    pub open spec fn spec_from_name(name: Option<&str>) -> BackoffKind {
        match name {
            Option::None => BackoffKind::DecorrelatedJitter,
            Option::Some(n) => if n.spec_bytes() == "expo-jitter".spec_bytes() {
                BackoffKind::NoJitter
            } else if n.spec_bytes() == "equal-jitter".spec_bytes() {
                BackoffKind::EqualJitter
            } else if n.spec_bytes() == "decor-jitter".spec_bytes() {
                BackoffKind::DecorrelatedJitter
            } else if n.spec_bytes() == "none".spec_bytes() {
                BackoffKind::NoRetry
            } else {
                BackoffKind::FullJitter
            },
        }
    }

    /// Resolves a configured backoff name.
    pub fn from_name(name: Option<&str>) -> (r: BackoffKind)
        ensures
            r == Self::spec_from_name(name),
    {
        match name {
            Option::None => BackoffKind::DecorrelatedJitter,
            Option::Some(n) => {
                let b = n.as_bytes();
                if bytes_eq(b, "expo-jitter".as_bytes()) {
                    BackoffKind::NoJitter
                } else if bytes_eq(b, "equal-jitter".as_bytes()) {
                    BackoffKind::EqualJitter
                } else if bytes_eq(b, "decor-jitter".as_bytes()) {
                    BackoffKind::DecorrelatedJitter
                } else if bytes_eq(b, "none".as_bytes()) {
                    BackoffKind::NoRetry
                } else {
                    BackoffKind::FullJitter
                }
            },
        }
    }
}

/// Byte-wise equality of two slices.
fn bytes_eq(a: &[u8], b: &[u8]) -> (r: bool)
    ensures
        r == (a@ == b@),
{
    if a.len() != b.len() {
        return false;
    }
    let mut i: usize = 0;
    while i < a.len()
        invariant
            a@.len() == b@.len(),
            i <= a@.len(),
            forall|j: int| 0 <= j < i ==> a@[j] == b@[j],
        decreases a@.len() - i,
    {
        if a[i] != b[i] {
            return false;
        }
        i += 1;
    }
    assert(a@ =~= b@);
    true
}

/// The retry policy of cluster transactions: its kind, the bounds of the
/// wait in milliseconds, and how many attempts are made before giving up.
#[derive(PartialEq, Eq, Structural, Clone, Copy, Debug)]
pub struct RetryPolicy {
    pub kind: BackoffKind,
    pub min_delay_ms: u64,
    pub max_delay_ms: u64,
    pub max_attempts: u32,
}

/// The value of `o`, or `d` when it is absent.
pub open spec fn or_default<T>(o: Option<T>, d: T) -> T {
    match o {
        Option::Some(v) => v,
        Option::None => d,
    }
}

impl RetryPolicy {
    /// Builds the policy from the configured settings, each of which may be
    /// absent.
    pub fn from_settings(
        kind: Option<&str>,
        min_delay_ms: Option<u64>,
        max_delay_ms: Option<u64>,
        max_attempts: Option<u32>,
    ) -> (r: RetryPolicy)
        ensures
            r.kind == BackoffKind::spec_from_name(kind),
            r.min_delay_ms == or_default(min_delay_ms, DEFAULT_MIN_DELAY_MS),
            r.max_delay_ms == or_default(max_delay_ms, DEFAULT_MAX_DELAY_MS),
            r.max_attempts == or_default(max_attempts, DEFAULT_MAX_ATTEMPTS),
    {
        RetryPolicy {
            kind: BackoffKind::from_name(kind),
            min_delay_ms: match min_delay_ms {
                Option::Some(v) => v,
                Option::None => DEFAULT_MIN_DELAY_MS,
            },
            max_delay_ms: match max_delay_ms {
                Option::Some(v) => v,
                Option::None => DEFAULT_MAX_DELAY_MS,
            },
            max_attempts: match max_attempts {
                Option::Some(v) => v,
                Option::None => DEFAULT_MAX_ATTEMPTS,
            },
        }
    }

    /// The delays are ones that the backoff of this kind accepts.
    pub open spec fn is_buildable(self) -> bool {
        match self.kind {
            BackoffKind::FullJitter => self.min_delay_ms > 0 && self.max_delay_ms > 0,
            BackoffKind::EqualJitter => self.min_delay_ms > 1 && self.max_delay_ms > 1,
            BackoffKind::DecorrelatedJitter => self.min_delay_ms > 0,
            _ => true,
        }
    }

    /// Tells whether `backoff` can be built from this policy.
    pub fn can_build(&self) -> (r: bool)
        ensures
            r == self.is_buildable(),
    {
        match self.kind {
            BackoffKind::FullJitter => self.min_delay_ms > 0 && self.max_delay_ms > 0,
            BackoffKind::EqualJitter => self.min_delay_ms > 1 && self.max_delay_ms > 1,
            BackoffKind::DecorrelatedJitter => self.min_delay_ms > 0,
            _ => true,
        }
    }

    /// The cluster client's backoff for this policy.
    pub fn backoff(&self) -> (r: Backoff)
        requires
            self.is_buildable(),
        ensures
            (self.kind == BackoffKind::NoRetry) == is_none_of(r),
            self.kind == BackoffKind::NoJitter ==> r == no_jitter_of(
                self.min_delay_ms,
                self.max_delay_ms,
                self.max_attempts,
            ),
            self.kind == BackoffKind::FullJitter ==> r == full_jitter_of(
                self.min_delay_ms,
                self.max_delay_ms,
                self.max_attempts,
            ),
            self.kind == BackoffKind::EqualJitter ==> r == equal_jitter_of(
                self.min_delay_ms,
                self.max_delay_ms,
                self.max_attempts,
            ),
            self.kind == BackoffKind::DecorrelatedJitter ==> r == decorrelated_jitter_of(
                self.min_delay_ms,
                self.max_delay_ms,
                self.max_attempts,
            ),
    {
        match self.kind {
            BackoffKind::NoRetry => Backoff::no_backoff(),
            BackoffKind::NoJitter => Backoff::no_jitter_backoff(
                self.min_delay_ms,
                self.max_delay_ms,
                self.max_attempts,
            ),
            BackoffKind::FullJitter => Backoff::full_jitter_backoff(
                self.min_delay_ms,
                self.max_delay_ms,
                self.max_attempts,
            ),
            BackoffKind::EqualJitter => Backoff::equal_jitter_backoff(
                self.min_delay_ms,
                self.max_delay_ms,
                self.max_attempts,
            ),
            BackoffKind::DecorrelatedJitter => Backoff::decorrelated_jitter_backoff(
                self.min_delay_ms,
                self.max_delay_ms,
                self.max_attempts,
            ),
        }
    }
}

/// Options of write transactions: pessimistic locking, a warning when one is
/// dropped uncommitted, and `backoff` for both region and lock retries.
pub fn write_options(backoff: &Backoff) -> (r: TransactionOptions)
    ensures
        pessimistic_of(r),
        exists|p: TransactionOptions|
            pessimistic_of(p) && r == retry_options_of(
                drop_check_of(p, CheckLevel::Warn),
                retry_pair_of(*backoff, *backoff),
            ),
{
    let base = TransactionOptions::new_pessimistic();
    let ghost p = base;
    let r = base.drop_check(CheckLevel::Warn).retry_options(
        RetryOptions::new(backoff.clone(), backoff.clone()),
    );
    assert(r == retry_options_of(drop_check_of(p, CheckLevel::Warn), retry_pair_of(*backoff, *backoff)));
    r
}

/// Options of read transactions: optimistic and read-only, silent when
/// dropped uncommitted, and `backoff` for both region and lock retries.
pub fn read_options(backoff: &Backoff) -> (r: TransactionOptions)
    ensures
        !pessimistic_of(r),
        exists|p: TransactionOptions|
            !pessimistic_of(p) && r == read_only_of(
                retry_options_of(
                    drop_check_of(p, CheckLevel::None),
                    retry_pair_of(*backoff, *backoff),
                ),
            ),
{
    let base = TransactionOptions::new_optimistic();
    let ghost p = base;
    let r = base.drop_check(CheckLevel::None).retry_options(
        RetryOptions::new(backoff.clone(), backoff.clone()),
    ).read_only();
    assert(r == read_only_of(
        retry_options_of(drop_check_of(p, CheckLevel::None), retry_pair_of(*backoff, *backoff)),
    ));
    r
}

} // verus!
