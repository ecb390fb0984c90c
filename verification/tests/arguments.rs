use xkcdpwgen::config::{ArgError, Config, Flag};

fn argv(parts: &[&str]) -> Vec<String> {
    parts.iter().map(|p| p.to_string()).collect()
}

#[test]
fn defaults_without_flags() {
    let c = Config::new(&argv(&["xkcdpwgen"])).unwrap();
    assert_eq!(c.words, 4);
    assert_eq!(c.caps, 0);
    assert_eq!(c.nums, 0);
    assert_eq!(c.syms, 0);
    assert!(!c.help);
    assert!(!c.debug);
}

#[test]
fn all_flags_short() {
    let c = Config::new(&argv(&["p", "-w", "6", "-c", "2", "-n", "3", "-s", "1"])).unwrap();
    assert_eq!((c.words, c.caps, c.nums, c.syms), (6, 2, 3, 1));
    assert!(!c.help && !c.debug);
}

#[test]
fn all_flags_long() {
    let c = Config::new(&argv(&[
        "p", "--words", "5", "--caps", "4", "--numbers", "2", "--symbols", "7", "--debug",
        "--help",
    ]))
    .unwrap();
    assert_eq!((c.words, c.caps, c.nums, c.syms), (5, 4, 2, 7));
    assert!(c.help && c.debug);
}

#[test]
fn repeated_flags_overwrite() {
    let c = Config::new(&argv(&["p", "-w", "2", "-w", "9"])).unwrap();
    assert_eq!(c.words, 9);
}

#[test]
fn caps_clamped_to_words() {
    let c = Config::new(&argv(&["p", "-w", "3", "-c", "7"])).unwrap();
    assert_eq!(c.words, 3);
    assert_eq!(c.caps, 3);
}

#[test]
fn caps_clamped_against_default_words() {
    // Without a word flag, `-c 9` is clamped to the default of 4 words.
    let c = Config::new(&argv(&["p", "-c", "9"])).unwrap();
    assert_eq!(c.words, 4);
    assert_eq!(c.caps, 4);
}

#[test]
fn caps_before_words_clamped_at_resolution() {
    // The clamp happens at validation, against the final word count.
    let c = Config::new(&argv(&["p", "-c", "3", "-w", "1"])).unwrap();
    assert_eq!(c.words, 1);
    assert_eq!(c.caps, 1);
}

#[test]
fn caps_flag_order_does_not_matter() {
    // `-c 5 -w 10` and `-w 10 -c 5` resolve to the same configuration:
    // five capitalizations out of ten words.
    let a = Config::new(&argv(&["p", "-c", "5", "-w", "10"])).unwrap();
    let b = Config::new(&argv(&["p", "-w", "10", "-c", "5"])).unwrap();
    assert_eq!(a, b);
    assert_eq!(a.words, 10);
    assert_eq!(a.caps, 5);
}

#[test]
fn plus_prefixed_value_accepted() {
    let c = Config::new(&argv(&["p", "-n", "+5"])).unwrap();
    assert_eq!(c.nums, 5);
}

#[test]
fn invalid_words_value_rejected() {
    let e = Config::new(&argv(&["p", "-w", "abc"])).unwrap_err();
    assert_eq!(e, ArgError::InvalidParameter(Flag::Words));
    assert!(e.message().contains("-w"));
}

#[test]
fn invalid_caps_value_rejected() {
    let e = Config::new(&argv(&["p", "-c", "2.5"])).unwrap_err();
    assert_eq!(e, ArgError::InvalidParameter(Flag::Caps));
    assert!(e.message().contains("-c"));
}

#[test]
fn invalid_numbers_value_rejected() {
    let e = Config::new(&argv(&["p", "-n", "-1"])).unwrap_err();
    assert_eq!(e, ArgError::InvalidParameter(Flag::Numbers));
    assert!(e.message().contains("-n"));
}

#[test]
fn invalid_symbols_value_rejected() {
    let e = Config::new(&argv(&["p", "-s", "many"])).unwrap_err();
    assert_eq!(e, ArgError::InvalidParameter(Flag::Symbols));
    assert!(e.message().contains("-s"));
}

#[test]
fn overflowing_value_rejected() {
    let e = Config::new(&argv(&["p", "-w", "99999999999999999999999999"])).unwrap_err();
    assert_eq!(e, ArgError::InvalidParameter(Flag::Words));
}

#[test]
fn missing_value_rejected() {
    let e = Config::new(&argv(&["p", "-s"])).unwrap_err();
    assert_eq!(e, ArgError::NoParameter(Flag::Symbols));
    assert!(e.message().contains("-s"));
}

#[test]
fn unknown_flag_rejected() {
    let e = Config::new(&argv(&["p", "-x"])).unwrap_err();
    assert_eq!(
        e,
        ArgError::UnknownArgument { arg: "-x".to_string() }
    );
    assert_eq!(e.message(), "invalid argument");
}

#[test]
fn build_clamps_idempotently() {
    // Asking for more capitalizations than words resolves to the same
    // configuration as asking for exactly one per word.
    let a = Config::build(3, 8, 1, 2, false, false);
    let b = Config::build(3, 3, 1, 2, false, false);
    assert_eq!(a, b);
    assert_eq!(a.caps, 3);
}

#[test]
fn usage_names_every_flag() {
    let text = xkcdpwgen::config::usage_text();
    assert!(text.contains("-w WORDS"));
    assert!(text.contains("-s SYMBOLS"));
    assert!(text.contains("-c CAPS"));
    assert!(text.contains("-n NUMBERS"));
    assert!(text.contains("-h, --help"));
    assert!(text.contains("(default=4)"));
}
