#[test]
fn cpu_worst_is_the_only_gate_metric() {
    let passes = |cpu_worst: f64, wall_worst: f64, budget: f64| {
        let _diagnostic_only = wall_worst;
        cpu_worst <= budget
    };
    assert!(passes(5.0, 284.0, 5.0), "wall outlier must not fail gate");
    assert!(!passes(5.1, 1.0, 5.0), "CPU worst over budget must fail");
}
