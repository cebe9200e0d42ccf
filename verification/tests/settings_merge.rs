use boltzmann::flipper::Flipper;
use boltzmann::settings::{Flags, Settings};

fn no_flags() -> Flags {
    Flags {
        redis: None,
        postgres: None,
        honeycomb: None,
        githubci: None,
        templates: None,
        typescript: None,
        volta: None,
        csrf: None,
        status: None,
        ping: None,
        jwt: None,
        livereload: None,
        oauth: None,
        staticfiles: None,
        esbuild: None,
        website: false,
        all: false,
        force: false,
        verbose: 0,
        silent: false,
        quiet: false,
        selftest: false,
        docs: false,
        destination: String::new(),
    }
}

fn persisted_redis_off() -> Settings {
    let mut s = Settings::empty();
    s.redis = Some(false);
    s
}

fn merge(s: &Settings, flags: &Flags) -> Settings {
    s.merge_flags("2.0.0".to_string(), "18".to_string(), flags)
}

#[test]
fn bare_request_overrides_persisted_off() {
    let mut flags = no_flags();
    flags.redis = Some(None);
    assert_eq!(merge(&persisted_redis_off(), &flags).redis, Some(true));
}

#[test]
fn omitted_flag_preserves_persisted_off() {
    assert_eq!(merge(&persisted_redis_off(), &no_flags()).redis, Some(false));
}

#[test]
fn all_group_forces_on() {
    let mut flags = no_flags();
    flags.all = true;
    let merged = merge(&persisted_redis_off(), &flags);
    assert_eq!(merged.redis, Some(true));
    assert_eq!(merged.csrf, Some(true));
    assert_eq!(merged.githubci, Some(true));
}

#[test]
fn website_group_covers_only_website_features() {
    let mut flags = no_flags();
    flags.website = true;
    let merged = merge(&persisted_redis_off(), &flags);
    assert_eq!(merged.redis, Some(false));
    assert_eq!(merged.postgres, None);
    assert_eq!(merged.csrf, Some(true));
    assert_eq!(merged.staticfiles, Some(true));
    assert_eq!(merged.esbuild, Some(true));
    assert_eq!(merged.jwt, Some(true));
    assert_eq!(merged.livereload, Some(true));
    assert_eq!(merged.oauth, Some(true));
    assert_eq!(merged.ping, Some(true));
    assert_eq!(merged.status, Some(true));
    assert_eq!(merged.templates, Some(true));
}

#[test]
fn explicit_switches_are_honoured() {
    let mut flags = no_flags();
    flags.redis = Some(Some(Flipper::On));
    flags.postgres = Some(Some(Flipper::Off));
    let merged = merge(&Settings::empty(), &flags);
    assert_eq!(merged.redis, Some(true));
    assert_eq!(merged.postgres, Some(false));
    assert_eq!(merged.honeycomb, None);
}

#[test]
fn explicit_off_beats_an_active_group() {
    let mut flags = no_flags();
    flags.website = true;
    flags.csrf = Some(Some(Flipper::Off));
    let merged = merge(&Settings::empty(), &flags);
    assert_eq!(merged.csrf, Some(false));
    assert_eq!(merged.jwt, Some(true));
}

#[test]
fn selftest_forces_grouped_features_on() {
    let mut flags = no_flags();
    flags.selftest = true;
    flags.redis = Some(Some(Flipper::Off));
    let merged = merge(&persisted_redis_off(), &flags);
    assert_eq!(merged.redis, Some(true));
    assert_eq!(merged.csrf, Some(true));
    assert_eq!(merged.selftest, Some(true));
    assert_eq!(merged.typescript, Some(true));
    assert_eq!(merged.volta, Some(true));
}

#[test]
fn merge_carries_both_versions() {
    let merged = merge(&Settings::empty(), &no_flags());
    assert_eq!(merged.version, Some("2.0.0".to_string()));
    assert_eq!(merged.node_version, Some("18".to_string()));
    assert_eq!(merged.selftest, None);
}

#[test]
fn typescript_and_volta_stand_outside_the_groups() {
    let mut persisted = Settings::empty();
    persisted.typescript = Some(true);
    persisted.volta = Some(false);
    let merged = merge(&persisted, &no_flags());
    assert_eq!(merged.typescript, Some(true));
    assert_eq!(merged.volta, Some(false));

    let mut flags = no_flags();
    flags.all = true;
    let merged = merge(&Settings::empty(), &flags);
    assert_eq!(merged.typescript, None);
    assert_eq!(merged.volta, None);

    flags.typescript = Some(Some(Flipper::Off));
    flags.volta = Some(None);
    let merged = merge(&persisted, &flags);
    assert_eq!(merged.typescript, Some(false));
    assert_eq!(merged.volta, Some(true));
}

#[test]
fn initial_settings_enable_ci_and_monitoring() {
    let s = Settings::initial();
    assert_eq!(s.githubci, Some(true));
    assert_eq!(s.status, Some(true));
    assert_eq!(s.ping, Some(true));
    assert_eq!(s.redis, None);
    assert_eq!(s.version, None);
    assert_eq!(s.features(), vec!["githubci", "ping", "status"]);
}

#[test]
fn features_are_alphabetical_with_selftest_last() {
    let mut s = Settings::empty();
    s.typescript = Some(true);
    s.selftest = Some(true);
    s.staticfiles = Some(true);
    s.csrf = Some(true);
    s.redis = Some(false);
    s.volta = Some(true);
    assert_eq!(s.features(), vec!["csrf", "staticfiles", "typescript", "selftest"]);
    assert!(Settings::empty().features().is_empty());
}

#[test]
fn flattened_settings_answer_by_name() {
    let mut s = Settings::empty();
    s.redis = Some(true);
    s.postgres = Some(false);
    s.version = Some("1.0.0".to_string());
    let flat = s.flatten();
    assert!(flat.enabled("redis"));
    assert!(!flat.enabled("postgres"));
    assert!(!flat.enabled("csrf"));
    assert!(!flat.enabled("version"));
    assert!(!flat.enabled("no-such-feature"));
}

#[test]
fn flipper_reads_the_accepted_words() {
    for word in ["on", "ON", "true", "yes", "y", "1"] {
        assert_eq!(Flipper::parse(word), Some(Flipper::On));
        assert_eq!(word.parse::<Flipper>(), Ok(Flipper::On));
    }
    for word in ["0", "n", "no", "false", "OFF", "off"] {
        assert_eq!(Flipper::parse(word), Some(Flipper::Off));
        assert_eq!(word.parse::<Flipper>(), Ok(Flipper::Off));
    }
    for word in ["", "On", "maybe", "2", " on"] {
        assert_eq!(Flipper::parse(word), None);
        assert!(word.parse::<Flipper>().is_err());
    }
}

#[test]
fn flipper_from_bool() {
    assert_eq!(Flipper::from(true), Flipper::On);
    assert_eq!(Flipper::from(false), Flipper::Off);
    assert!(Flipper::On.is_on());
    assert!(!Flipper::Off.is_on());
}

#[test]
fn settings_are_described_on_one_line() {
    let mut s = Settings::empty();
    assert_eq!(s.describe(), "");
    s.redis = Some(true);
    assert_eq!(s.describe(), "redis");
    s.csrf = Some(true);
    s.selftest = Some(true);
    assert_eq!(s.describe(), "csrf, redis, selftest");
}

#[test]
fn word_that_is_no_switch_is_refused_with_a_message() {
    assert_eq!(
        "maybe".parse::<Flipper>(),
        Err("This is not a valid feature flag value.".to_string())
    );
    assert_eq!("off".parse::<Flipper>(), Ok(Flipper::Off));
}
