use visual_sims::args::{has_word, param_value, starts_with, value_of};

fn words(v: &[&str]) -> Vec<String> {
    v.iter().map(|s| s.to_string()).collect()
}

#[test]
fn param_value_finds_key() {
    let args = words(&["prog", "num_boids=30", "max_angle=12.5"]);
    assert_eq!(param_value(&args, "num_boids="), Some("30".to_string()));
    assert_eq!(param_value(&args, "max_angle="), Some("12.5".to_string()));
}

#[test]
fn param_value_missing_key() {
    let args = words(&["prog", "num_boids=30"]);
    assert_eq!(param_value(&args, "num_obs="), None);
    assert_eq!(param_value(&Vec::new(), "num_obs="), None);
}

#[test]
fn param_value_first_match_wins() {
    let args = words(&["prog", "rows=3", "rows=4"]);
    assert_eq!(param_value(&args, "rows="), Some("3".to_string()));
}

#[test]
fn param_value_first_match_without_equals_gives_none() {
    let args = words(&["prog", "WORLD_SIZE", "WORLD_SIZE=5"]);
    assert_eq!(param_value(&args, "WORLD_SIZE"), None);
}

#[test]
fn param_value_prefix_without_equals() {
    let args = words(&["prog", "DEATH_AGE=70"]);
    assert_eq!(param_value(&args, "DEATH_AGE"), Some("70".to_string()));
    assert_eq!(param_value(&args, "DEATH"), Some("70".to_string()));
}

#[test]
fn param_value_stops_at_second_equals() {
    let args = words(&["prog", "a=b=c"]);
    assert_eq!(param_value(&args, "a"), Some("b".to_string()));
}

#[test]
fn param_value_empty_value() {
    let args = words(&["prog", "width="]);
    assert_eq!(param_value(&args, "width="), Some(String::new()));
}

#[test]
fn value_of_fields() {
    assert_eq!(value_of("k=v"), Some("v".to_string()));
    assert_eq!(value_of("k=é=x"), Some("é".to_string()));
    assert_eq!(value_of("=v"), Some("v".to_string()));
    assert_eq!(value_of("kv"), None);
    assert_eq!(value_of(""), None);
}

#[test]
fn starts_with_prefixes() {
    assert!(starts_with("rows=3", "rows="));
    assert!(starts_with("rows", ""));
    assert!(!starts_with("row", "rows"));
    assert!(!starts_with("cols=3", "rows="));
}

#[test]
fn has_word_exact_only() {
    assert!(has_word(&words(&["prog", "help"]), "help"));
    assert!(!has_word(&words(&["prog", "helper"]), "help"));
    assert!(!has_word(&words(&["prog", "hel"]), "help"));
    assert!(!has_word(&Vec::new(), "help"));
}
