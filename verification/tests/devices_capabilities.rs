use razer::devices::Capabilities;

#[test]
fn none_contains_nothing() {
    assert!(!Capabilities::none().contains(Capabilities::serial()));
}

#[test]
fn union_contains_members_not_others() {
    let c = Capabilities::serial() | Capabilities::brightness();
    assert!(c.contains(Capabilities::serial()));
    assert!(c.contains(Capabilities::brightness()));
    assert!(!c.contains(Capabilities::poll_rate()));
}

#[test]
fn all_flags_distinct_powers_of_two() {
    let flags = [
        Capabilities::device_mode(),
        Capabilities::firmware_version(),
        Capabilities::serial(),
        Capabilities::brightness(),
        Capabilities::static_effect(),
        Capabilities::poll_rate(),
    ];
    for f in flags {
        assert_eq!(
            f.bits().count_ones(),
            1,
            "{:#x} is not a power of two",
            f.bits()
        );
    }
    for i in 0..flags.len() {
        for j in (i + 1)..flags.len() {
            assert_ne!(flags[i].bits(), flags[j].bits());
        }
    }
}
