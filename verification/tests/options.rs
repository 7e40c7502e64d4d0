use kv_engine::IterOption;

#[test]
fn default_is_unbounded_total_order_and_fills_cache() {
    let opt = IterOption::default();
    assert!(opt.upper_bound().is_none());
    assert!(opt.total_order_seek_used());
    let resolved = opt.build_read_opts();
    assert!(resolved.fill_cache);
    assert!(resolved.total_order_seek);
    assert!(!resolved.prefix_same_as_start);
    assert!(resolved.iterate_upper_bound.is_none());
}

#[test]
fn new_takes_bound_and_cache_policy() {
    let opt = IterOption::new(Some(b"zz".to_vec()), false);
    assert_eq!(opt.upper_bound(), Some(&b"zz"[..]));
    assert!(opt.total_order_seek_used());
    let resolved = opt.build_read_opts();
    assert!(!resolved.fill_cache);
    assert!(resolved.total_order_seek);
    assert!(!resolved.prefix_same_as_start);
    assert_eq!(resolved.iterate_upper_bound, Some(b"zz".to_vec()));
}

#[test]
fn total_order_seek_suppresses_the_prefix_restriction() {
    let opt = IterOption::new(None, true).set_prefix_same_as_start(true);
    assert!(opt.total_order_seek_used());
    let resolved = opt.build_read_opts();
    assert!(resolved.total_order_seek);
    assert!(!resolved.prefix_same_as_start);
}

#[test]
fn prefix_seek_applies_the_prefix_restriction_when_enabled() {
    let opt = IterOption::new(None, true).use_prefix_seek();
    assert!(!opt.total_order_seek_used());
    let resolved = opt.build_read_opts();
    assert!(!resolved.total_order_seek);
    assert!(!resolved.prefix_same_as_start);

    let opt = IterOption::default().use_prefix_seek().set_prefix_same_as_start(true);
    let resolved = opt.build_read_opts();
    assert!(!resolved.total_order_seek);
    assert!(resolved.prefix_same_as_start);
    assert!(resolved.fill_cache);

    let opt = IterOption::default()
        .use_prefix_seek()
        .set_prefix_same_as_start(true)
        .set_prefix_same_as_start(false);
    assert!(!opt.build_read_opts().prefix_same_as_start);
}

#[test]
fn upper_bound_is_carried_over_in_either_seek_mode() {
    let opt = IterOption::default().set_upper_bound(b"m".to_vec());
    assert_eq!(opt.upper_bound(), Some(&b"m"[..]));
    assert_eq!(opt.build_read_opts().iterate_upper_bound, Some(b"m".to_vec()));
    let opt = IterOption::new(Some(b"a".to_vec()), true)
        .use_prefix_seek()
        .set_prefix_same_as_start(true)
        .set_upper_bound(b"n".to_vec());
    let resolved = opt.build_read_opts();
    assert_eq!(resolved.iterate_upper_bound, Some(b"n".to_vec()));
    assert!(resolved.prefix_same_as_start);
    assert!(!resolved.total_order_seek);
}
