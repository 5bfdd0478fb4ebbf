use encrypted_spaces::conn_limiter::{ConnLimiter, PeerAddr};

fn ip(n: u8) -> PeerAddr {
    PeerAddr::V4(u32::from_be_bytes([10, 0, 0, n]))
}

#[test]
fn per_ip_cap_enforced_and_released() {
    let mut l = ConnLimiter::new(2, 100);
    let a = l.try_acquire(ip(1)).unwrap();
    let _b = l.try_acquire(ip(1)).unwrap();
    assert!(l.try_acquire(ip(1)).is_none(), "3rd from same IP rejected");
    assert!(l.try_acquire(ip(2)).is_some(), "other IP unaffected");
    l.release(a);
    assert!(
        l.try_acquire(ip(1)).is_some(),
        "permit release frees a slot"
    );
}

#[test]
fn global_cap_enforced() {
    let mut l = ConnLimiter::new(100, 2);
    let _a = l.try_acquire(ip(1)).unwrap();
    let _b = l.try_acquire(ip(2)).unwrap();
    assert!(
        l.try_acquire(ip(3)).is_none(),
        "global cap rejects regardless of IP"
    );
}

#[test]
fn empty_ip_entry_cleaned_up() {
    let mut l = ConnLimiter::new(2, 100);
    {
        let p = l.try_acquire(ip(1)).unwrap();
        l.release(p);
    }
    assert!(l.is_empty(), "IP map entry removed when count hits 0");
}

#[test]
fn zero_cap_means_unlimited() {
    // Both caps set to 0: every acquire must succeed (no cap applied).
    let mut l = ConnLimiter::new(0, 0);
    let mut permits = Vec::new();
    for _ in 0..20 {
        permits.push(l.try_acquire(ip(1)).expect("0-cap must be unlimited"));
    }
    assert_eq!(permits.len(), 20);
    assert!(!l.is_empty());
}

#[test]
fn address_families_are_counted_apart() {
    let mut l = ConnLimiter::new(1, 0);
    let a = l.try_acquire(PeerAddr::V4(7)).unwrap();
    let b = l.try_acquire(PeerAddr::V6(7)).unwrap();
    assert!(l.try_acquire(PeerAddr::V4(7)).is_none());
    assert!(l.try_acquire(PeerAddr::V6(7)).is_none());
    l.release(a);
    assert!(l.try_acquire(PeerAddr::V6(7)).is_none());
    assert!(l.try_acquire(PeerAddr::V4(7)).is_some());
    assert_eq!(b.ip, PeerAddr::V6(7));
}

#[test]
fn a_refusal_leaves_no_trace() {
    let mut l = ConnLimiter::new(1, 1);
    let a = l.try_acquire(ip(1)).unwrap();
    assert!(l.try_acquire(ip(2)).is_none());
    assert!(l.try_acquire(ip(1)).is_none());
    l.release(a);
    assert!(l.is_empty());
}

#[test]
fn connections_are_counted_per_address_and_in_all() {
    let mut l = ConnLimiter::new(0, 0);
    let a = l.try_acquire(ip(1)).unwrap();
    let _b = l.try_acquire(ip(1)).unwrap();
    let _c = l.try_acquire(PeerAddr::V6(1)).unwrap();
    assert_eq!((l.count(ip(1)), l.count(PeerAddr::V6(1)), l.count(ip(2))), (2, 1, 0));
    assert_eq!(l.total(), 3);
    l.release(a);
    assert_eq!((l.count(ip(1)), l.total()), (1, 2));
}
