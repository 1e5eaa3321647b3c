use logux::config::{apply_preset_data, level_from_code, preset_of};
use logux::logs::filters::FilterState;
use logux::logs::formatter::{FormatConfig, Preset};
use logux::logs::parser::LogLevel;

#[test]
fn preset_round_trips_filters_and_format() {
    let mut f = FilterState::default();
    f.set_package("com.example", None);
    f.add_tag("Net");
    f.set_level(LogLevel::Warn);
    f.set_text("timeout");
    let mut fmt = FormatConfig::default();
    fmt.apply_preset(Preset::Threadtime);
    let d = preset_of("work", &f, &fmt);
    assert_eq!(d.name, "work");
    let mut g = FilterState::default();
    g.set_text("other");
    let mut fmt2 = FormatConfig::default();
    apply_preset_data(d, &mut g, &mut fmt2);
    assert_eq!(g.package, "com.example");
    assert_eq!(g.tags, vec!["Net".to_string()]);
    assert_eq!(g.min_level, LogLevel::Warn);
    assert_eq!(g.text, "timeout");
    assert_eq!(fmt2, fmt);
}

#[test]
fn level_codes_map_to_levels() {
    assert_eq!(level_from_code(0), LogLevel::Verbose);
    assert_eq!(level_from_code(3), LogLevel::Warn);
    assert_eq!(level_from_code(5), LogLevel::Fatal);
    assert_eq!(level_from_code(9), LogLevel::Verbose);
}
