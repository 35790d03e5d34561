use ray_tracer::config::Config;

#[test]
fn config_build_takes_single_command() {
    let args = vec!["tracer".to_string(), "clock".to_string()];
    let config = Config::build(&args).unwrap();
    assert_eq!(config.command, "clock");
}

#[test]
fn config_build_rejects_missing_command() {
    let args = vec!["tracer".to_string()];
    match Config::build(&args) {
        Ok(_) => panic!("a single argument must be rejected"),
        Err(e) => assert_eq!(e, "Expect <command>"),
    }
}

#[test]
fn config_build_rejects_extra_arguments() {
    let args = vec!["tracer".to_string(), "clock".to_string(), "now".to_string()];
    match Config::build(&args) {
        Ok(_) => panic!("three arguments must be rejected"),
        Err(e) => assert_eq!(e, "Expect <command>"),
    }
}
