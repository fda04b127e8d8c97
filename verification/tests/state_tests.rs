use vehicle_audio_engine::state::{surface_key, Trigger};

#[test]
fn surface_key_asphalt_is_none() {
    assert_eq!(surface_key("asphalt"), None);
    assert_eq!(surface_key("sand"), Some("surf_sand"));
    assert_eq!(surface_key("grass"), Some("surf_grass"));
    assert_eq!(surface_key("rumble"), Some("surf_rumble"));
    assert_eq!(surface_key("unknown"), None);
}

#[test]
fn trigger_bank_keys_are_stable() {
    assert_eq!(Trigger::ShiftUp.bank_key(), "shift_up");
    assert_eq!(Trigger::Barrier.bank_key(), "impact_barrier");
    assert_eq!(Trigger::Cone.bank_key(), "impact_cone");
}

#[test]
fn trigger_codes_follow_the_c_interface() {
    assert_eq!(Trigger::from_code(0), Some(Trigger::ShiftUp));
    assert_eq!(Trigger::from_code(2), Some(Trigger::Backfire));
    assert_eq!(Trigger::from_code(6), Some(Trigger::Hit4));
    assert_eq!(Trigger::from_code(10), Some(Trigger::Scrape));
    assert_eq!(Trigger::from_code(11), None);
    assert_eq!(Trigger::from_code(-1), None);
    assert_eq!(Trigger::Backfire.bank_key(), "engine_backfire");
    assert_eq!(Trigger::Hit3.bank_key(), "impact_hit_3");
}
