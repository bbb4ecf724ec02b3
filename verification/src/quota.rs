//! Accounts, their quotas, and the keys by which quota ratios and instants are ordered.
//!
//! A usage ratio is a floating-point number. The library never computes with one: it holds
//! the order key of the number, an integer that compares as the number does.

use vstd::prelude::*;

verus! {

/// The order key of the ratio 1.0.
pub const RATIO_ONE: i64 = 0x3FF0_0000_0000_0000;

/// The order key of a double given by its bits. Keys compare as the numbers do, for all
/// numbers but NaN; both zeros have the key 0.
pub open spec fn key_of(bits: int) -> int {
    if bits < 0x8000_0000_0000_0000 {
        bits
    } else {
        0x8000_0000_0000_0000 - bits
    }
}

/// The order key of the double with the given bits.
pub fn ratio_key(bits: u64) -> (r: i64)
    ensures
        r == key_of(bits as int),
{
    if bits < 0x8000_0000_0000_0000 {
        bits as i64
    } else {
        let magnitude: u64 = bits - 0x8000_0000_0000_0000;
        -(magnitude as i64)
    }
}

/// Among the non-negative doubles a larger bit pattern has a larger key, among the
/// negative ones a smaller key, and every negative one comes before every positive one.
pub proof fn keys_keep_the_order(a: u64, b: u64)
    requires
        a < b,
    ensures
        b < 0x8000_0000_0000_0000 ==> key_of(a as int) < key_of(b as int),
        0x8000_0000_0000_0000 <= a ==> key_of(b as int) < key_of(a as int),
        a < 0x8000_0000_0000_0000 <= b ==> key_of(b as int) <= 0 <= key_of(a as int),
{
}

/// An instant: seconds since the Unix epoch and the nanoseconds after them.
#[derive(Debug, Clone, Copy, PartialEq, Eq, Structural)]
pub struct Stamp {
    pub secs: i64,
    pub nanos: u32,
}

impl Stamp {
    /// Whether the instant lies before the other one.
    pub open spec fn before(self, other: Stamp) -> bool {
        self.secs < other.secs || (self.secs == other.secs && self.nanos < other.nanos)
    }

    /// Whether the instant lies before the other one.
    pub fn is_before(&self, other: &Stamp) -> (r: bool)
        ensures
            r == self.before(*other),
    {
        self.secs < other.secs || (self.secs == other.secs && self.nanos < other.nanos)
    }
}

/// The whole seconds from one instant to another, rounded toward zero.
pub open spec fn whole_seconds(from: Stamp, to: Stamp) -> int {
    let s = to.secs - from.secs;
    if s > 0 && to.nanos < from.nanos {
        s - 1
    } else if s < 0 && to.nanos > from.nanos {
        s + 1
    } else {
        s
    }
}

/// The nearest value to `n` that an `i64` holds.
pub open spec fn clamped(n: int) -> int {
    if n < i64::MIN {
        i64::MIN as int
    } else if n > i64::MAX {
        i64::MAX as int
    } else {
        n
    }
}

/// The whole seconds from one instant to another, rounded toward zero. A span too long for
/// the result gives its nearest value.
pub fn seconds_until(from: &Stamp, to: &Stamp) -> (r: i64)
    ensures
        r == clamped(whole_seconds(*from, *to)),
{
    let s: i128 = to.secs as i128 - from.secs as i128;
    let whole: i128 = if s > 0 && to.nanos < from.nanos {
        s - 1
    } else if s < 0 && to.nanos > from.nanos {
        s + 1
    } else {
        s
    };
    if whole < -9_223_372_036_854_775_808 {
        i64::MIN
    } else if whole > 9_223_372_036_854_775_807 {
        i64::MAX
    } else {
        whole as i64
    }
}

/// The span of time that a quota covers.
#[derive(Debug, Clone, Copy, PartialEq, Eq, Structural)]
pub enum QuotaWindow {
    FiveHour,
    SevenDay,
    Month,
    Other,
}

/// What the service says of a quota.
#[derive(Debug, Clone, Copy, PartialEq, Eq, Structural)]
pub enum QuotaStatus {
    Exhausted,
    Other,
}

/// The used part of a quota.
#[derive(Debug, PartialEq, Eq)]
pub struct Usage {
    /// The order key of the used ratio.
    pub used: i64,
    /// The order key of 1.0 less the used ratio.
    pub left: i64,
    /// The used ratio in percent, rounded, as text without the percent sign.
    pub percent: String,
}

/// One quota of an account.
#[derive(Debug, PartialEq, Eq)]
pub struct Quota {
    pub window: QuotaWindow,
    pub status: QuotaStatus,
    /// Nothing where the ratio is not known.
    pub usage: Option<Usage>,
    pub reset_at: Option<Stamp>,
}

/// An account of the registry.
#[derive(Debug, PartialEq, Eq)]
pub struct Account {
    pub id: String,
    pub label: String,
    /// Whether Kimi Code uses the account now.
    pub active: bool,
    /// Lower numbers win ties.
    pub priority: i32,
    /// Whether the account is left to manual use.
    pub manual_only: bool,
    /// Whether the account takes part in routing; nothing where it was never set.
    pub routing_enabled: Option<bool>,
    /// The day on which the subscription ends, as `YYYY-MM-DD`.
    pub subscription_expires_on: Option<String>,
}

/// The place of the first quota with the given window.
pub open spec fn first_window(quotas: Seq<Quota>, window: QuotaWindow) -> Option<int>
    decreases quotas.len(),
{
    if quotas.len() == 0 {
        None
    } else {
        match first_window(quotas.drop_last(), window) {
            Some(i) => Some(i),
            None => if quotas.last().window == window {
                Some(quotas.len() - 1)
            } else {
                None
            },
        }
    }
}

/// The first quota with the given window.
pub open spec fn window_quota(quotas: Seq<Quota>, window: QuotaWindow) -> Option<Quota> {
    match first_window(quotas, window) {
        Some(i) => Some(quotas[i]),
        None => None,
    }
}

/// The usage of the first quota with the given window.
pub open spec fn window_usage(quotas: Seq<Quota>, window: QuotaWindow) -> Option<Usage> {
    match window_quota(quotas, window) {
        Some(quota) => quota.usage,
        None => None,
    }
}

/// A place found by `first_window` holds the window, and no earlier place does.
pub proof fn lemma_first_window(quotas: Seq<Quota>, window: QuotaWindow)
    ensures
        match first_window(quotas, window) {
            Some(i) => 0 <= i < quotas.len() && quotas[i].window == window && forall|k: int|
                0 <= k < i ==> (#[trigger] quotas[k]).window != window,
            None => forall|k: int|
                0 <= k < quotas.len() ==> (#[trigger] quotas[k]).window != window,
        },
    decreases quotas.len(),
{
    if quotas.len() > 0 {
        let rest = quotas.drop_last();
        lemma_first_window(rest, window);
        assert(forall|k: int| 0 <= k < rest.len() ==> rest[k] == quotas[k]);
    }
}

/// The first quota with the given window.
pub fn find_window(quotas: &Vec<Quota>, window: QuotaWindow) -> (r: Option<&Quota>)
    ensures
        match r {
            Some(quota) => window_quota(quotas@, window) == Some(*quota),
            None => window_quota(quotas@, window) is None,
        },
{
    let mut i: usize = 0;
    while i < quotas.len()
        invariant
            i <= quotas@.len(),
            forall|k: int| 0 <= k < i ==> (#[trigger] quotas@[k]).window != window,
        decreases quotas@.len() - i,
    {
        if quotas[i].window == window {
            proof {
                lemma_first_window(quotas@, window);
            }
            return Some(&quotas[i]);
        }
        i = i + 1;
    }
    proof {
        lemma_first_window(quotas@, window);
    }
    None
}

/// The order key of what is left of the first quota with the given window: that of 0.0
/// where nothing is known of it.
pub open spec fn left_of(quotas: Seq<Quota>, window: QuotaWindow) -> i64 {
    match window_usage(quotas, window) {
        Some(usage) => usage.left,
        None => 0,
    }
}

/// The order key of what is left of a window.
pub fn left_key(quotas: &Vec<Quota>, window: QuotaWindow) -> (r: i64)
    ensures
        r == left_of(quotas@, window),
{
    match find_window(quotas, window) {
        Some(quota) => match &quota.usage {
            Some(usage) => usage.left,
            None => 0,
        },
        None => 0,
    }
}

/// Whether the first quota with the given window is known to be used up.
pub open spec fn used_up(quotas: Seq<Quota>, window: QuotaWindow) -> bool {
    match window_usage(quotas, window) {
        Some(usage) => usage.used >= RATIO_ONE,
        None => false,
    }
}

/// Whether the first quota with the given window is known to be used up.
pub fn is_used_up(quotas: &Vec<Quota>, window: QuotaWindow) -> (r: bool)
    ensures
        r == used_up(quotas@, window),
{
    match find_window(quotas, window) {
        Some(quota) => match &quota.usage {
            Some(usage) => usage.used >= RATIO_ONE,
            None => false,
        },
        None => false,
    }
}

/// The order of instants is that of their nanoseconds since the epoch.
pub proof fn instants_are_ordered_by_time(a: Stamp, b: Stamp)
    requires
        a.nanos < 1_000_000_000,
        b.nanos < 1_000_000_000,
    ensures
        a.before(b) <==> a.secs * 1_000_000_000 + a.nanos < b.secs * 1_000_000_000 + b.nanos,
{
}

/// The whole seconds from one instant to another are as many as fit into the time between
/// them, forward or backward.
pub proof fn whole_seconds_fit_into_the_span(from: Stamp, to: Stamp)
    requires
        from.nanos < 1_000_000_000,
        to.nanos < 1_000_000_000,
    ensures
        ({
            let span = (to.secs - from.secs) * 1_000_000_000 + (to.nanos - from.nanos);
            let n = whole_seconds(from, to);
            &&& span >= 0 ==> n * 1_000_000_000 <= span < (n + 1) * 1_000_000_000
            &&& span <= 0 ==> (n - 1) * 1_000_000_000 < span <= n * 1_000_000_000
        }),
{
}

/// A clamped number is one that an `i64` holds, and no such number is nearer.
pub proof fn clamped_number_is_the_nearest(n: int, m: i64)
    ensures
        i64::MIN <= clamped(n) <= i64::MAX,
        n <= m ==> clamped(n) <= m && (n <= clamped(n)),
        m <= n ==> m <= clamped(n) && (clamped(n) <= n),
{
}

/// The rest of a window is that of the first quota with it: what that one has left, or 0.0
/// where its ratio is not known. It is known to be used up where its ratio is 1.0 or more.
pub proof fn first_quota_of_a_window_counts(quotas: Seq<Quota>, window: QuotaWindow, i: int)
    requires
        0 <= i < quotas.len(),
        quotas[i].window == window,
        forall|k: int| 0 <= k < i ==> (#[trigger] quotas[k]).window != window,
    ensures
        window_quota(quotas, window) == Some(quotas[i]),
        window_usage(quotas, window) == quotas[i].usage,
        quotas[i].usage matches Some(usage) ==> left_of(quotas, window) == usage.left,
        quotas[i].usage matches Some(usage) ==> (used_up(quotas, window) <==> usage.used
            >= 0x3FF0_0000_0000_0000),
        quotas[i].usage is None ==> left_of(quotas, window) == 0 && !used_up(quotas, window),
{
    lemma_first_window(quotas, window);
    if let Some(k) = first_window(quotas, window) {
        assert(quotas[k].window == window);
    }
}

/// Nothing is known of a window that no quota has: it leaves 0.0 and is not known to be used up.
pub proof fn missing_window_leaves_nothing(quotas: Seq<Quota>, window: QuotaWindow)
    requires
        forall|k: int| 0 <= k < quotas.len() ==> (#[trigger] quotas[k]).window != window,
    ensures
        window_quota(quotas, window) is None,
        window_usage(quotas, window) is None,
        left_of(quotas, window) == 0,
        !used_up(quotas, window),
{
    lemma_first_window(quotas, window);
}

/// The order keys of the numbers that quotas are compared with: 1.0, -1.0 and both zeros.
pub proof fn keys_of_fixed_numbers()
    ensures
        key_of(0x3FF0_0000_0000_0000) == RATIO_ONE,
        key_of(0xBFF0_0000_0000_0000) == -RATIO_ONE,
        key_of(0) == 0,
        key_of(0x8000_0000_0000_0000) == 0,
{
}

} // verus!
