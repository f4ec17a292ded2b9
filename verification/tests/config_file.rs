use mysql_tray_controller::config::{parse_config, Config, ConfigSettings, DEFAULT_REFRESH_SECONDS};

fn name_of(settings: &ConfigSettings) -> Option<&str> {
    settings.service_name.as_deref()
}

#[test]
fn readme_example_is_read() {
    let settings = parse_config("service_name=MySQL84\nrefresh_interval_seconds=2\n");
    assert_eq!(name_of(&settings), Some("MySQL84"));
    assert_eq!(settings.refresh_seconds, 2);
}

#[test]
fn empty_file_gives_defaults() {
    let settings = parse_config("");
    assert_eq!(name_of(&settings), None);
    assert_eq!(settings.refresh_seconds, DEFAULT_REFRESH_SECONDS);
}

#[test]
fn comments_and_blank_lines_are_skipped() {
    let text = "# service_name=Commented\n; service_name=AlsoCommented\n\n   \nservice_name=MariaDB\n";
    let settings = parse_config(text);
    assert_eq!(name_of(&settings), Some("MariaDB"));
    assert_eq!(settings.refresh_seconds, 2);
}

#[test]
fn keys_and_values_are_trimmed_and_unquoted() {
    let settings = parse_config("  service_name  =  \"MySQL80\"  \r\n refresh_interval_seconds = \"7\" \r\n");
    assert_eq!(name_of(&settings), Some("MySQL80"));
    assert_eq!(settings.refresh_seconds, 7);
}

#[test]
fn value_keeps_later_equals_signs() {
    let settings = parse_config("service_name=a=b\n");
    assert_eq!(name_of(&settings), Some("a=b"));
}

#[test]
fn refresh_interval_is_clamped() {
    assert_eq!(parse_config("refresh_interval_seconds=0").refresh_seconds, 1);
    assert_eq!(parse_config("refresh_interval_seconds=120").refresh_seconds, 60);
    assert_eq!(parse_config("refresh_interval_seconds=60").refresh_seconds, 60);
    assert_eq!(parse_config("refresh_interval_seconds=+5").refresh_seconds, 5);
}

#[test]
fn unreadable_refresh_interval_is_ignored() {
    assert_eq!(parse_config("refresh_interval_seconds=abc").refresh_seconds, 2);
    assert_eq!(parse_config("refresh_interval_seconds=-5").refresh_seconds, 2);
    assert_eq!(parse_config("refresh_interval_seconds=").refresh_seconds, 2);
    assert_eq!(parse_config("refresh_interval_seconds=+").refresh_seconds, 2);
    assert_eq!(
        parse_config("refresh_interval_seconds=99999999999999999999").refresh_seconds,
        2
    );
    assert_eq!(
        parse_config("refresh_interval_seconds=18446744073709551615").refresh_seconds,
        60
    );
}

#[test]
fn last_valid_setting_wins() {
    let text = "service_name=First\nrefresh_interval_seconds=9\nservice_name=Second\nrefresh_interval_seconds=x\nservice_name=\n";
    let settings = parse_config(text);
    assert_eq!(name_of(&settings), Some("Second"));
    assert_eq!(settings.refresh_seconds, 9);
}

#[test]
fn blank_service_name_counts_as_none() {
    let settings = parse_config("service_name=\"   \"\n");
    assert_eq!(name_of(&settings), None);
    let settings = parse_config("service_name=\"\"\n");
    assert_eq!(name_of(&settings), None);
}

#[test]
fn quoted_name_keeps_inner_spaces() {
    let settings = parse_config("service_name=\" My SQL \"\n");
    assert_eq!(name_of(&settings), Some(" My SQL "));
}

#[test]
fn line_without_equals_is_ignored() {
    let settings = parse_config("service_name MySQL\nunknown=value\n");
    assert_eq!(name_of(&settings), None);
    assert_eq!(settings.refresh_seconds, 2);
}

#[test]
fn file_contents_are_exact() {
    let config = Config { service_name: "MySQL84".to_string(), refresh_seconds: 2 };
    assert_eq!(
        config.file_contents(),
        "# MySQL Tray Controller configuration\n\
         # Use the Windows SERVICE NAME, not its display name.\n\
         # Find it in services.msc -> MySQL service -> Properties.\n\
         service_name=MySQL84\n\
         refresh_interval_seconds=2\n"
    );
}

#[test]
fn file_contents_spell_large_intervals() {
    let config = Config { service_name: "x".to_string(), refresh_seconds: 1234567890 };
    assert!(config.file_contents().ends_with("refresh_interval_seconds=1234567890\n"));
    let config = Config { service_name: "x".to_string(), refresh_seconds: 0 };
    assert!(config.file_contents().ends_with("refresh_interval_seconds=0\n"));
}

#[test]
fn saved_configuration_reads_back() {
    for (name, seconds) in [("MySQL84", 2u64), ("wampmariadb64", 60), ("My SQL=1", 1), ("a", 45)] {
        let config = Config { service_name: name.to_string(), refresh_seconds: seconds };
        let settings = parse_config(&config.file_contents());
        assert_eq!(name_of(&settings), Some(name));
        assert_eq!(settings.refresh_seconds, seconds);
    }
}

#[test]
fn padded_name_does_not_read_back_unchanged() {
    let config = Config { service_name: " MySQL".to_string(), refresh_seconds: 2 };
    let settings = parse_config(&config.file_contents());
    assert_eq!(name_of(&settings), Some("MySQL"));
}

#[test]
fn configuration_from_settings() {
    let settings = parse_config("refresh_interval_seconds=5");
    let config = Config::from_settings(settings, "MariaDB".to_string());
    assert_eq!(config.service_name, "MariaDB");
    assert_eq!(config.refresh_seconds, 5);

    let settings = parse_config("service_name=MySQL");
    let config = Config::from_settings(settings, "MariaDB".to_string());
    assert_eq!(config.service_name, "MySQL");
    assert_eq!(config.refresh_seconds, 2);
}

#[test]
fn new_configuration_uses_default_interval() {
    let config = Config::with_service("MySQL80".to_string());
    assert_eq!(config.service_name, "MySQL80");
    assert_eq!(config.refresh_seconds, 2);
}

#[test]
fn unicode_whitespace_is_trimmed() {
    let settings = parse_config("\u{3000}service_name\u{a0}=\u{2003}MySQL84\u{85}\n\u{feff}x=1\n");
    assert_eq!(name_of(&settings), Some("MySQL84"));
}

#[test]
fn zero_width_space_is_not_whitespace() {
    let settings = parse_config("service_name=\u{200b}MySQL\n");
    assert_eq!(name_of(&settings), Some("\u{200b}MySQL"));
}
