//! Field and preset configuration for log output: which columns are shown,
//! their widths, and the layout of each entry.
use vstd::prelude::*;
use crate::text::{lowercase, str_eq, to_lower};

verus! {

/// How log entries are laid out on screen.
#[derive(Debug, Clone, Copy, PartialEq, Eq, Structural)]
pub enum LayoutMode {
    /// Two-line layout: metadata header + indented message below (default).
    Linear,
    /// Single-line layout: all fields in fixed-width columns, message truncated.
    Compact,
}

pub open spec fn layout_name(m: LayoutMode) -> Seq<char> {
    match m {
        LayoutMode::Linear => "linear"@,
        LayoutMode::Compact => "compact"@,
    }
}

/// The layout named by an already lower-cased name.
pub open spec fn layout_by_lower_name(s: Seq<char>) -> Option<LayoutMode> {
    if s == "linear"@ {
        Some(LayoutMode::Linear)
    } else if s == "compact"@ {
        Some(LayoutMode::Compact)
    } else {
        None
    }
}

impl LayoutMode {
    pub fn as_str(self) -> (s: &'static str)
        ensures
            s@ == layout_name(self),
    {
        match self {
            LayoutMode::Linear => "linear",
            LayoutMode::Compact => "compact",
        }
    }

    /// The layout called `name`, in any case.
    pub fn from_name(name: &str) -> (r: Option<LayoutMode>)
        ensures
            r == layout_by_lower_name(lowercase(name@)),
    {
        let lower = to_lower(name);
        if str_eq(lower.as_str(), "linear") {
            Some(LayoutMode::Linear)
        } else if str_eq(lower.as_str(), "compact") {
            Some(LayoutMode::Compact)
        } else {
            None
        }
    }
}

impl Default for LayoutMode {
    fn default() -> (m: LayoutMode)
        ensures
            m == LayoutMode::Linear,
    {
        LayoutMode::Linear
    }
}

/// Output format presets.
#[derive(Debug, Clone, Copy, PartialEq, Eq, Structural)]
pub enum Preset {
    Compact,
    Threadtime,
    Verbose,
    Minimal,
    Json,
}

pub open spec fn preset_name(p: Preset) -> Seq<char> {
    match p {
        Preset::Compact => "compact"@,
        Preset::Threadtime => "threadtime"@,
        Preset::Verbose => "verbose"@,
        Preset::Minimal => "minimal"@,
        Preset::Json => "json"@,
    }
}

/// The preset named by an already lower-cased name.
pub open spec fn preset_by_lower_name(s: Seq<char>) -> Option<Preset> {
    if s == "compact"@ {
        Some(Preset::Compact)
    } else if s == "threadtime"@ {
        Some(Preset::Threadtime)
    } else if s == "verbose"@ {
        Some(Preset::Verbose)
    } else if s == "minimal"@ {
        Some(Preset::Minimal)
    } else if s == "json"@ {
        Some(Preset::Json)
    } else {
        None
    }
}

impl Preset {
    /// The preset called `name`, in any case.
    pub fn from_name(name: &str) -> (r: Option<Preset>)
        ensures
            r == preset_by_lower_name(lowercase(name@)),
    {
        let lower = to_lower(name);
        let s = lower.as_str();
        if str_eq(s, "compact") {
            Some(Preset::Compact)
        } else if str_eq(s, "threadtime") {
            Some(Preset::Threadtime)
        } else if str_eq(s, "verbose") {
            Some(Preset::Verbose)
        } else if str_eq(s, "minimal") {
            Some(Preset::Minimal)
        } else if str_eq(s, "json") {
            Some(Preset::Json)
        } else {
            None
        }
    }

    pub fn as_str(&self) -> (s: &'static str)
        ensures
            s@ == preset_name(*self),
    {
        match self {
            Preset::Compact => "compact",
            Preset::Threadtime => "threadtime",
            Preset::Verbose => "verbose",
            Preset::Minimal => "minimal",
            Preset::Json => "json",
        }
    }
}

/// A preset's name is read back as the same preset, in whatever case it is
/// written, provided lower-casing leaves the (ASCII, lower-case) name alone.
pub proof fn lemma_preset_name_roundtrip(p: Preset)
    requires
        lowercase(preset_name(p)) == preset_name(p),
    ensures
        preset_by_lower_name(lowercase(preset_name(p))) == Some(p),
{
    reveal_strlit("compact");
    reveal_strlit("threadtime");
    reveal_strlit("verbose");
    reveal_strlit("minimal");
    reveal_strlit("json");
    assert("threadtime"@ != "compact"@ && "verbose"@ != "compact"@ && "minimal"@ != "compact"@
        && "json"@ != "compact"@) by {
        assert("threadtime"@.len() != "compact"@.len());
        assert("verbose"@[0] != "compact"@[0]);
        assert("minimal"@[0] != "compact"@[0]);
        assert("json"@.len() != "compact"@.len());
    }
    assert("verbose"@ != "threadtime"@ && "minimal"@ != "threadtime"@ && "json"@ != "threadtime"@)
        by {
        assert("verbose"@.len() != "threadtime"@.len());
        assert("minimal"@.len() != "threadtime"@.len());
        assert("json"@.len() != "threadtime"@.len());
    }
    assert("minimal"@ != "verbose"@ && "json"@ != "verbose"@) by {
        assert("minimal"@[0] != "verbose"@[0]);
        assert("json"@.len() != "verbose"@.len());
    }
    assert("json"@ != "minimal"@) by {
        assert("json"@.len() != "minimal"@.len());
    }
}

/// Widths of the fixed columns, in terminal cells.
#[derive(Debug, Clone, Copy, PartialEq, Eq, Structural)]
pub struct ColumnWidths {
    pub timestamp: u16,
    pub level: u16,
    pub pid: u16,
    pub tid: u16,
    pub tag: u16,
}

pub open spec fn default_widths() -> ColumnWidths {
    ColumnWidths { timestamp: 20, level: 4, pid: 7, tid: 7, tag: 25 }
}

impl Default for ColumnWidths {
    fn default() -> (w: ColumnWidths)
        ensures
            w == default_widths(),
    {
        ColumnWidths { timestamp: 20, level: 4, pid: 7, tid: 7, tag: 25 }
    }
}

/// Which fields are shown, the active preset, widths and layout.
#[derive(Debug, Clone, Copy, PartialEq, Eq, Structural)]
pub struct FormatConfig {
    pub timestamp: bool,
    pub level: bool,
    pub tag: bool,
    pub pid: bool,
    pub tid: bool,
    pub message: bool,
    pub preset: Preset,
    pub widths: ColumnWidths,
    pub layout_mode: LayoutMode,
}

pub open spec fn default_format() -> FormatConfig {
    FormatConfig {
        timestamp: true,
        level: true,
        tag: true,
        pid: false,
        tid: false,
        message: true,
        preset: Preset::Compact,
        widths: default_widths(),
        layout_mode: LayoutMode::Linear,
    }
}

/// The configuration after switching `c` to preset `p`: the preset is
/// recorded and its standard field set applied (JSON keeps the fields).
pub open spec fn with_preset(c: FormatConfig, p: Preset) -> FormatConfig {
    match p {
        Preset::Compact => FormatConfig {
            preset: p,
            timestamp: true,
            level: true,
            tag: true,
            pid: false,
            tid: false,
            message: true,
            ..c
        },
        Preset::Threadtime | Preset::Verbose => FormatConfig {
            preset: p,
            timestamp: true,
            level: true,
            tag: true,
            pid: true,
            tid: true,
            message: true,
            ..c
        },
        Preset::Minimal => FormatConfig {
            preset: p,
            timestamp: false,
            level: true,
            tag: true,
            pid: false,
            tid: false,
            message: true,
            ..c
        },
        Preset::Json => FormatConfig { preset: p, ..c },
    }
}

/// The configuration after setting field `name` to `on`, or `None` when no
/// field has that name.
pub open spec fn with_field(c: FormatConfig, name: Seq<char>, on: bool) -> Option<FormatConfig> {
    if name == "timestamp"@ {
        Some(FormatConfig { timestamp: on, ..c })
    } else if name == "level"@ {
        Some(FormatConfig { level: on, ..c })
    } else if name == "tag"@ {
        Some(FormatConfig { tag: on, ..c })
    } else if name == "pid"@ {
        Some(FormatConfig { pid: on, ..c })
    } else if name == "tid"@ {
        Some(FormatConfig { tid: on, ..c })
    } else if name == "message"@ {
        Some(FormatConfig { message: on, ..c })
    } else {
        None
    }
}

impl Default for FormatConfig {
    fn default() -> (c: FormatConfig)
        ensures
            c == default_format(),
    {
        FormatConfig {
            timestamp: true,
            level: true,
            tag: true,
            pid: false,
            tid: false,
            message: true,
            preset: Preset::Compact,
            widths: ColumnWidths::default(),
            layout_mode: LayoutMode::default(),
        }
    }
}

impl FormatConfig {
    /// Switches to preset `preset` and shows the fields it calls for.
    pub fn apply_preset(&mut self, preset: Preset)
        ensures
            *final(self) == with_preset(*old(self), preset),
    {
        self.preset = preset;
        match preset {
            Preset::Compact => {
                self.timestamp = true;
                self.level = true;
                self.tag = true;
                self.pid = false;
                self.tid = false;
                self.message = true;
            },
            Preset::Threadtime | Preset::Verbose => {
                self.timestamp = true;
                self.level = true;
                self.tag = true;
                self.pid = true;
                self.tid = true;
                self.message = true;
            },
            Preset::Minimal => {
                self.timestamp = false;
                self.level = true;
                self.tag = true;
                self.pid = false;
                self.tid = false;
                self.message = true;
            },
            Preset::Json => {},
        }
    }

    /// Shows or hides field `name`; false (and no change) for an unknown
    /// field.
    pub fn toggle_field(&mut self, name: &str, enabled: bool) -> (ok: bool)
        ensures
            ok == with_field(*old(self), name@, enabled) is Some,
            ok ==> *final(self) == with_field(*old(self), name@, enabled)->0,
            !ok ==> *final(self) == *old(self),
    {
        if str_eq(name, "timestamp") {
            self.timestamp = enabled;
        } else if str_eq(name, "level") {
            self.level = enabled;
        } else if str_eq(name, "tag") {
            self.tag = enabled;
        } else if str_eq(name, "pid") {
            self.pid = enabled;
        } else if str_eq(name, "tid") {
            self.tid = enabled;
        } else if str_eq(name, "message") {
            self.message = enabled;
        } else {
            return false;
        }
        true
    }
}

/// Applying a preset twice is the same as applying it once.
pub proof fn lemma_apply_preset_idempotent(c: FormatConfig, p: Preset)
    ensures
        with_preset(with_preset(c, p), p) == with_preset(c, p),
{
}

/// Output settings: the format configuration and the text to highlight.
pub struct LogFormatter {
    pub config: FormatConfig,
    pub highlight_text: String,
}

impl Default for LogFormatter {
    fn default() -> (f: LogFormatter)
        ensures
            f.config == default_format(),
            f.highlight_text@ == Seq::<char>::empty(),
    {
        LogFormatter { config: FormatConfig::default(), highlight_text: String::new() }
    }
}

} // verus!
