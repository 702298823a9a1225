use tetris::effects::Effect;

#[test]
fn fresh_effects_are_not_expired() {
    assert_eq!(Effect::blind(), Effect::Blind { expired: false });
    assert_eq!(Effect::heavy(), Effect::Heavy { expired: false });
    assert!(!Effect::blind().is_expired());
    assert!(!Effect::heavy().is_expired());
}

#[test]
fn effects_know_their_kind() {
    assert!(Effect::blind().is_blind());
    assert!(!Effect::blind().adds_heavy_on_horizontal());
    assert!(Effect::heavy().adds_heavy_on_horizontal());
    assert!(!Effect::heavy().is_blind());
}

#[test]
fn a_lock_marks_an_effect_expired_and_keeps_its_kind() {
    let mut b = Effect::blind();
    b.on_drop();
    assert_eq!(b, Effect::Blind { expired: true });
    assert!(b.is_expired());
    b.on_drop();
    assert_eq!(b, Effect::Blind { expired: true });
    let mut h = Effect::heavy();
    h.on_drop();
    assert_eq!(h, Effect::Heavy { expired: true });
    assert!(h.is_expired() && h.adds_heavy_on_horizontal());
}
