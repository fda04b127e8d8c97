use vehicle_audio_engine::mixer::one_shot_table;
use vehicle_audio_engine::state::Trigger;

fn samples(list: &[(&str, &str)]) -> Vec<(String, String)> {
    list.iter().map(|(k, r)| (k.to_string(), r.to_string())).collect()
}

#[test]
fn one_shot_table_follows_trigger_order_then_companions_then_backfires() {
    let bank = samples(&[
        ("impact_cone", "impact"),
        ("impact_hit_2", "impact"),
        ("int_backfire", "engine_backfire"),
        ("int_backfire_2", "engine_backfire"),
        ("shift_down_delayed", "gear"),
        ("shift_up", "gear"),
        ("surf_sand", "surface"),
    ]);
    let table = one_shot_table(&bank);
    let expected = vec![
        (Trigger::ShiftUp, "shift_up".to_string()),
        (Trigger::Hit2, "impact_hit_2".to_string()),
        (Trigger::Cone, "impact_cone".to_string()),
        (Trigger::ShiftDown, "shift_down_delayed".to_string()),
        (Trigger::Backfire, "int_backfire".to_string()),
        (Trigger::Backfire, "int_backfire_2".to_string()),
    ];
    assert_eq!(table, expected);
}

#[test]
fn one_shot_table_of_an_empty_bank_is_empty() {
    assert!(one_shot_table(&Vec::new()).is_empty());
    let only_loops = samples(&[("engine_backfire", "loop"), ("wind", "ambience")]);
    assert!(one_shot_table(&only_loops).is_empty());
}
