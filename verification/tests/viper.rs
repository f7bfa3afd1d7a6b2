use glow::deps::cobra::{Flag, FlagSet, Value as FlagValue};
use glow::deps::viper::{Value, Viper};

fn flags() -> FlagSet {
    let mut set = FlagSet::new();
    set.add(Flag::string("style", "s", "auto", "style"));
    set.add(Flag::uint("width", "w", 0, "width"));
    set.add(Flag::bool("all", "a", false, "all"));
    set
}

#[test]
fn defaults_are_used_when_nothing_else_matches() {
    let mut v = Viper::new();
    v.set_default("style", Value::Str("auto".into()));
    assert_eq!(v.get_string("style", &flags()), "auto");
}

#[test]
fn keys_are_case_insensitive() {
    let mut v = Viper::new();
    v.set_default("preserveNewLines", Value::Bool(true));
    assert!(v.get_bool("preservenewlines", &flags()));
    assert!(v.get_bool("PreserveNewLines", &flags()));
}

#[test]
fn a_changed_flag_outranks_config_and_default() {
    let mut v = Viper::new();
    v.set_default("style", Value::Str("auto".into()));
    v.load_config("", vec![("style".into(), Value::Str("dark".into()))]);
    v.bind_pflag("style", "style");
    let mut f = flags();
    assert_eq!(v.get_string("style", &f), "dark");
    f = {
        let mut set = FlagSet::new();
        let mut flag = Flag::string("style", "s", "auto", "style");
        flag.value = FlagValue::Str("light".into());
        flag.changed = true;
        set.add(flag);
        set
    };
    assert_eq!(v.get_string("style", &f), "light");
}

#[test]
fn environment_outranks_config() {
    let mut v = Viper::new();
    v.set_env_prefix("glow");
    v.automatic_env();
    v.load_config("", vec![("style".into(), Value::Str("dark".into()))]);
    v.set_env_var("GLOW_STYLE", "pink");
    assert_eq!(v.get_string("style", &flags()), "pink");
    v.set_env_var("GLOW_STYLE", "");
    assert_eq!(v.get_string("style", &flags()), "dark");
}

#[test]
fn cast_rules_match_spf13_cast() {
    assert!(Value::Str("true".into()).as_bool());
    assert!(!Value::Str("yes".into()).as_bool());
    assert!(Value::Int(3).as_bool());
    assert_eq!(Value::Str("42".into()).as_uint(), 42);
    assert_eq!(Value::Str("nope".into()).as_uint(), 0);
    assert_eq!(Value::Bool(true).as_string(), "true");
}

#[test]
fn config_file_candidates_follow_the_probe_order() {
    let mut v = Viper::new();
    v.set_config_name("glow");
    v.add_config_path("");
    v.add_config_path("/etc/glow/");
    assert_eq!(
        v.config_candidates(),
        vec![
            "/etc/glow/glow.json".to_string(),
            "/etc/glow/glow.toml".to_string(),
            "/etc/glow/glow.yaml".to_string(),
            "/etc/glow/glow.yml".to_string(),
        ]
    );
    v.set_config_type("yaml");
    assert_eq!(v.config_candidates().len(), 5);
    assert_eq!(v.config_candidates()[4], "/etc/glow/glow");
}

#[test]
fn loaded_config_is_reported_and_keys_are_folded() {
    let mut v = Viper::new();
    v.load_config(
        "/x/glow.yml",
        vec![
            ("Width".into(), Value::Int(90)),
            ("all".into(), Value::Bool(true)),
            ("width".into(), Value::Int(-4)),
        ],
    );
    assert_eq!(v.config_file_used(), "/x/glow.yml");
    assert_eq!(v.get_uint("width", &flags()), 0);
    assert!(v.get_bool("ALL", &flags()));
    assert_eq!(v.get_string("width", &flags()), "-4");
}

#[test]
fn an_unset_key_falls_back_to_the_bound_flags_default() {
    let mut v = Viper::new();
    v.bind_pflag("style", "style");
    assert_eq!(v.get_string("style", &flags()), "auto");
    assert!(v.get("missing", &flags()).is_none());
    assert_eq!(v.get_uint("missing", &flags()), 0);
}
