use logux::logs::formatter::{ColumnWidths, FormatConfig, LayoutMode, Preset};

#[test]
fn test_toggle_field() {
    let mut cfg = FormatConfig::default();
    assert!(cfg.toggle_field("pid", true));
    assert!(cfg.pid);
    assert!(!cfg.toggle_field("nonexistent", true));
}

#[test]
fn test_preset_roundtrip() {
    for p in [Preset::Compact, Preset::Threadtime, Preset::Verbose, Preset::Minimal, Preset::Json] {
        assert_eq!(Preset::from_name(p.as_str()), Some(p));
    }
}

#[test]
fn apply_preset_sets_fields() {
    let mut cfg = FormatConfig::default();
    cfg.apply_preset(Preset::Threadtime);
    assert!(cfg.pid && cfg.tid && cfg.timestamp);
    assert_eq!(cfg.preset, Preset::Threadtime);
    cfg.apply_preset(Preset::Minimal);
    assert!(!cfg.timestamp && !cfg.pid && cfg.level);
    cfg.toggle_field("tag", false);
    cfg.apply_preset(Preset::Json);
    assert!(!cfg.tag);
    assert_eq!(cfg.preset, Preset::Json);
}

#[test]
fn defaults_and_names() {
    let w = ColumnWidths::default();
    assert_eq!((w.timestamp, w.level, w.pid, w.tid, w.tag), (20, 4, 7, 7, 25));
    assert_eq!(LayoutMode::from_name("COMPACT"), Some(LayoutMode::Compact));
    assert_eq!(LayoutMode::from_name("grid"), None);
    assert_eq!(LayoutMode::default().as_str(), "linear");
    assert_eq!(Preset::from_name("Verbose"), Some(Preset::Verbose));
    assert_eq!(Preset::from_name("xml"), None);
}
