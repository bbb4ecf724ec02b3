use std::path::PathBuf;

use kimi_router::quota::{
    ratio_key, seconds_until, Account, Quota, QuotaStatus, QuotaWindow, Stamp, Usage, RATIO_ONE,
};
use kimi_router::routing::{
    routing_enabled, score_parts, select_from, CachedQuotas, Exhaustion, PoolExhausted, QuotaCache,
    RouteSelector, RouterState, UNKNOWN_SCORE,
};

const NOW: Stamp = Stamp { secs: 1_700_000_000, nanos: 0 };

fn account(id: &str, priority: i32) -> Account {
    Account {
        id: id.to_string(),
        label: id.to_string(),
        active: false,
        priority,
        manual_only: false,
        routing_enabled: None,
        subscription_expires_on: None,
    }
}

fn usage(ratio: f64) -> Usage {
    Usage {
        used: ratio_key(ratio.to_bits()),
        left: ratio_key((1.0 - ratio).to_bits()),
        percent: format!("{:.0}", ratio * 100.0),
    }
}

fn quota(window: QuotaWindow, used: u64, reset_hours: i64) -> Quota {
    Quota {
        window,
        status: if used >= 100 { QuotaStatus::Exhausted } else { QuotaStatus::Other },
        usage: Some(usage(used as f64 / 100.0)),
        reset_at: Some(Stamp { secs: NOW.secs + reset_hours * 3600, nanos: 0 }),
    }
}

fn ratio(q: &Quota) -> f64 {
    f64::from_bits(q.usage.as_ref().unwrap().used as u64)
}

fn score(quotas: &Vec<Quota>) -> i64 {
    let parts = score_parts(quotas, NOW);
    let headroom = match parts.short {
        Some(i) => (1.0 - ratio(&quotas[i])).clamp(0.0, 1.0),
        None => 1.0,
    };
    let burn = match parts.weekly {
        Some((i, seconds)) => {
            (1.0 - ratio(&quotas[i])).clamp(0.0, 1.0) / (seconds as f64 / 3600.0)
        }
        None => 0.0,
    };
    ratio_key((burn * (0.5 + 0.5 * headroom) + 0.0001 * headroom).to_bits())
}

fn cached(id: &str, quotas: Vec<Quota>) -> CachedQuotas {
    let score = score(&quotas);
    CachedQuotas { account_id: id.to_string(), quotas, fresh: true, score }
}

fn cache(entries: Vec<CachedQuotas>) -> QuotaCache {
    QuotaCache { entries }
}

#[test]
fn prefers_allowance_at_risk_before_earlier_reset() {
    let cache = cache(vec![
        cached(
            "soon",
            vec![quota(QuotaWindow::SevenDay, 10, 24), quota(QuotaWindow::FiveHour, 10, 5)],
        ),
        cached(
            "later",
            vec![quota(QuotaWindow::SevenDay, 10, 120), quota(QuotaWindow::FiveHour, 10, 5)],
        ),
    ]);
    let result = select_from(
        &vec![account("later", 100), account("soon", 100)],
        &cache,
        &RouterState::new(),
        &Vec::new(),
        &Vec::new(),
        NOW,
    )
    .unwrap();
    assert_eq!(result.account_id, "soon");
}

#[test]
fn excludes_depleted_disabled_and_manual_accounts() {
    let mut disabled = account("disabled", 1);
    disabled.routing_enabled = Some(false);
    let mut manual = account("manual", 1);
    manual.manual_only = true;
    let ready = account("ready", 100);
    let cache = cache(vec![cached("depleted", vec![quota(QuotaWindow::FiveHour, 100, 2)])]);
    let result = select_from(
        &vec![disabled, manual, account("depleted", 1), ready],
        &cache,
        &RouterState::new(),
        &Vec::new(),
        &Vec::new(),
        NOW,
    )
    .unwrap();
    assert_eq!(result.account_id, "ready");
}

#[test]
fn sticky_count_breaks_equal_scores() {
    let accounts = vec![account("busy", 100), account("idle", 100)];
    let mut state = RouterState::new();
    state.assign("s1", "busy");
    let result =
        select_from(&accounts, &cache(vec![]), &state, &Vec::new(), &Vec::new(), NOW).unwrap();
    assert_eq!(result.account_id, "idle");
    assert_eq!(result.score, UNKNOWN_SCORE);
}

#[test]
fn routing_toggle_is_not_an_exhaustion_signal() {
    let mut disabled = account("toggle", 100);
    disabled.routing_enabled = Some(false);
    let mut selector = RouteSelector::new(vec![disabled], PathBuf::from("/srv/quota.json"));

    assert!(!selector.account_routing_enabled("toggle"));
    selector.replace_accounts(vec![account("toggle", 100)]);
    assert!(selector.account_routing_enabled("toggle"));
    assert_eq!(selector.quota_path(), &PathBuf::from("/srv/quota.json"));
}

#[test]
fn priority_and_order_break_the_remaining_ties() {
    let accounts = vec![account("a", 5), account("b", 1), account("c", 1)];
    let result = select_from(
        &accounts,
        &cache(vec![]),
        &RouterState::new(),
        &Vec::new(),
        &Vec::new(),
        NOW,
    )
    .unwrap();
    assert_eq!(result.account_id, "b");
    let excluded = vec!["b".to_string()];
    let result =
        select_from(&accounts, &cache(vec![]), &RouterState::new(), &excluded, &Vec::new(), NOW)
            .unwrap();
    assert_eq!(result.account_id, "c");
}

#[test]
fn unknown_quota_is_used_after_known_capacity() {
    let accounts = vec![account("unknown", 1), account("known", 100)];
    let mut stale = cached("unknown", vec![quota(QuotaWindow::FiveHour, 100, 2)]);
    stale.fresh = false;
    let cache = cache(vec![stale, cached("known", vec![quota(QuotaWindow::FiveHour, 99, 2)])]);
    let result =
        select_from(&accounts, &cache, &RouterState::new(), &Vec::new(), &Vec::new(), NOW).unwrap();
    assert_eq!(result.account_id, "known");
    let only = vec![account("unknown", 1)];
    let result =
        select_from(&only, &cache, &RouterState::new(), &Vec::new(), &Vec::new(), NOW).unwrap();
    assert_eq!(result.account_id, "unknown");
}

#[test]
fn an_exhausted_pool_tells_the_next_reset() {
    let accounts = vec![account("a", 1), account("b", 1), account("c", 1)];
    let cache = cache(vec![
        cached(
            "a",
            vec![quota(QuotaWindow::FiveHour, 100, 3), quota(QuotaWindow::SevenDay, 50, -1)],
        ),
        cached("b", vec![quota(QuotaWindow::SevenDay, 100, 2)]),
    ]);
    let marks = vec![Exhaustion {
        account_id: "c".to_string(),
        reset: Stamp { secs: NOW.secs + 60, nanos: 5 },
    }];
    let result = select_from(&accounts, &cache, &RouterState::new(), &Vec::new(), &marks, NOW);
    assert_eq!(
        result.unwrap_err(),
        PoolExhausted { next_reset: Some(Stamp { secs: NOW.secs + 60, nanos: 5 }) }
    );
    let two = vec![account("a", 1), account("b", 1)];
    let result = select_from(&two, &cache, &RouterState::new(), &Vec::new(), &Vec::new(), NOW);
    assert_eq!(
        result.unwrap_err(),
        PoolExhausted { next_reset: Some(Stamp { secs: NOW.secs + 7200, nanos: 0 }) }
    );
    let none = select_from(
        &Vec::new(),
        &cache,
        &RouterState::new(),
        &Vec::new(),
        &Vec::new(),
        NOW,
    );
    assert_eq!(none.unwrap_err(), PoolExhausted { next_reset: None });
}

#[test]
fn marks_last_until_the_reset_or_for_five_minutes() {
    let quotas = cache(vec![cached("a", vec![quota(QuotaWindow::FiveHour, 50, 1)])]);
    let mut selector =
        RouteSelector::new(vec![account("a", 1), account("b", 1)], PathBuf::from("q"));
    assert!(selector.account_has_capacity("a", &quotas, NOW));
    selector.mark_exhausted("a", &quotas, NOW);
    selector.mark_exhausted("b", &quotas, NOW);
    assert!(!selector.account_has_capacity("a", &quotas, NOW));
    assert!(!selector.account_has_capacity("b", &quotas, NOW));
    let refused = selector.select(&quotas, &RouterState::new(), &Vec::new(), NOW).unwrap_err();
    assert_eq!(refused.next_reset, Some(Stamp { secs: NOW.secs + 300, nanos: 0 }));
    let later = Stamp { secs: NOW.secs + 300, nanos: 0 };
    assert!(selector.account_has_capacity("b", &quotas, later));
    assert!(!selector.account_has_capacity("a", &quotas, later));
    let much_later = Stamp { secs: NOW.secs + 3600, nanos: 0 };
    assert!(selector.account_has_capacity("a", &quotas, much_later));
    assert!(!selector.account_has_capacity("c", &quotas, much_later));
    assert_eq!(selector.accounts().len(), 2);
}

#[test]
fn a_second_mark_replaces_the_first() {
    let none = cache(vec![]);
    let mut selector = RouteSelector::new(vec![account("a", 1)], PathBuf::from("q"));
    selector.mark_exhausted("a", &none, NOW);
    let later = Stamp { secs: NOW.secs + 100, nanos: 0 };
    selector.mark_exhausted("a", &none, later);
    let refused = selector.select(&none, &RouterState::new(), &Vec::new(), later).unwrap_err();
    assert_eq!(refused.next_reset, Some(Stamp { secs: NOW.secs + 400, nanos: 0 }));
}

#[test]
fn sessions_are_counted_by_owner() {
    let mut state = RouterState::new();
    state.assign("s1", "a");
    state.assign("s2", "a");
    state.assign("s2", "b");
    assert_eq!(state.owned_count("a"), 1);
    assert_eq!(state.owned_count("b"), 1);
    assert_eq!(state.owned_count("c"), 0);
}

#[test]
fn routing_is_on_unless_switched_off() {
    assert!(routing_enabled(&account("a", 0)));
    let mut on = account("a", 0);
    on.routing_enabled = Some(true);
    on.manual_only = true;
    assert!(!routing_enabled(&on));
}

#[test]
fn score_uses_the_last_known_quota_and_a_quarter_hour_at_least() {
    let mut unknown = quota(QuotaWindow::SevenDay, 10, 1);
    unknown.usage = None;
    let quotas = vec![
        quota(QuotaWindow::SevenDay, 10, 48),
        quota(QuotaWindow::SevenDay, 20, 0),
        unknown,
        quota(QuotaWindow::FiveHour, 30, 1),
        quota(QuotaWindow::Month, 30, 1),
    ];
    let parts = score_parts(&quotas, NOW);
    assert_eq!(parts.weekly, Some((1, 900)));
    assert_eq!(parts.short, Some(3));
    let mut open = quota(QuotaWindow::SevenDay, 10, 1);
    open.reset_at = None;
    assert_eq!(score_parts(&vec![open], NOW).weekly, Some((0, 604_800)));
    assert_eq!(score_parts(&Vec::new(), NOW).short, None);
}

#[test]
fn ratio_keys_compare_as_the_numbers_do() {
    let numbers: Vec<f64> = vec![-1.0, -0.5, 0.0, 1e-300, 0.35, 0.999, 1.0, 1.5];
    for i in 0..numbers.len() {
        for j in 0..numbers.len() {
            assert_eq!(
                numbers[i] < numbers[j],
                ratio_key(numbers[i].to_bits()) < ratio_key(numbers[j].to_bits())
            );
        }
    }
    assert_eq!(ratio_key((-0.0f64).to_bits()), 0);
    assert_eq!(ratio_key(1.0f64.to_bits()), RATIO_ONE);
    assert_eq!(ratio_key((-1.0f64).to_bits()), UNKNOWN_SCORE);
}

#[test]
fn seconds_are_whole_and_rounded_toward_zero() {
    let at = |secs: i64, nanos: u32| Stamp { secs, nanos };
    assert_eq!(seconds_until(&at(10, 500), &at(12, 400)), 1);
    assert_eq!(seconds_until(&at(10, 400), &at(12, 500)), 2);
    assert_eq!(seconds_until(&at(12, 400), &at(10, 500)), -1);
    assert_eq!(seconds_until(&at(12, 500), &at(10, 400)), -2);
    assert_eq!(seconds_until(&at(i64::MIN, 0), &at(i64::MAX, 0)), i64::MAX);
}
