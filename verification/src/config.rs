//! Saved configurations (presets): what is stored of the filters and the
//! output format, and how a stored preset is applied.
//!
//! Reading and writing the files is left to the caller; these functions
//! build the stored form and apply it.
use vstd::prelude::*;
use crate::logs::filters::{insensitive, FilterState, FilterView};
use crate::logs::formatter::FormatConfig;
use crate::logs::parser::{level_rank, LogLevel};
use crate::logs::pattern::regex_compiles;
use crate::text::{add_unique_string, string_from, string_views, with_unique};

verus! {

/// A stored preset.
pub struct PresetData {
    pub name: String,
    pub package: String,
    pub tags: Vec<String>,
    /// Lowest level shown, as its rank (Verbose = 0 … Silent = 6).
    pub min_level: u8,
    pub text: String,
    /// Source text of the regex filter.
    pub regex: Option<String>,
    pub format: FormatConfig,
}

/// The level stored as `code`: ranks 0 to 5 name Verbose to Fatal; any
/// other code reads as Verbose.
pub open spec fn level_of_code(code: u8) -> LogLevel {
    if code == 0 {
        LogLevel::Verbose
    } else if code == 1 {
        LogLevel::Debug
    } else if code == 2 {
        LogLevel::Info
    } else if code == 3 {
        LogLevel::Warn
    } else if code == 4 {
        LogLevel::Error
    } else if code == 5 {
        LogLevel::Fatal
    } else {
        LogLevel::Verbose
    }
}

pub fn level_from_code(code: u8) -> (l: LogLevel)
    ensures
        l == level_of_code(code),
{
    if code == 0 {
        LogLevel::Verbose
    } else if code == 1 {
        LogLevel::Debug
    } else if code == 2 {
        LogLevel::Info
    } else if code == 3 {
        LogLevel::Warn
    } else if code == 4 {
        LogLevel::Error
    } else if code == 5 {
        LogLevel::Fatal
    } else {
        LogLevel::Verbose
    }
}

/// The items of `l`, each kept once (first occurrence first).
pub open spec fn unique_items(l: Seq<Seq<char>>) -> Seq<Seq<char>>
    decreases l.len(),
{
    if l.len() == 0 {
        l
    } else {
        with_unique(unique_items(l.drop_last()), l.last())
    }
}

/// The filters after applying a stored preset: package, tags, level, text
/// and regex come from it (a regex that does not compile leaves the old
/// one); the rest is kept.
pub open spec fn with_preset_filters(
    f: FilterView,
    package: Seq<char>,
    tags: Seq<Seq<char>>,
    code: u8,
    text: Seq<char>,
    regex: Option<Seq<char>>,
) -> FilterView {
    let g = FilterView {
        package,
        tags: unique_items(tags),
        min_level: level_of_code(code),
        text,
        ..f
    };
    match regex {
        Some(p) => if regex_compiles(insensitive(p)) {
            FilterView { regex: Some(insensitive(p)), ..g }
        } else {
            g
        },
        None => FilterView { regex: None, ..g },
    }
}

/// The stored form of the current filters and format under `name`.
pub fn preset_of(name: &str, filters: &FilterState, format: &FormatConfig) -> (d: PresetData)
    ensures
        d.name@ == name@,
        d.package@ == filters@.package,
        string_views(d.tags@) == filters@.tags,
        d.min_level == level_rank(filters@.min_level),
        d.text@ == filters@.text,
        match d.regex {
            Some(r) => filters@.regex == Some(r@),
            None => filters@.regex is None,
        },
        d.format == *format,
{
    let mut tags: Vec<String> = Vec::new();
    let mut i: usize = 0;
    while i < filters.tags.len()
        invariant
            i <= filters.tags@.len(),
            string_views(tags@) == filters@.tags.take(i as int),
        decreases filters.tags@.len() - i,
    {
        let ghost before = string_views(tags@);
        tags.push(filters.tags[i].clone());
        assert(filters@.tags[i as int] == filters.tags@[i as int]@);
        assert(string_views(tags@) =~= before.push(filters@.tags[i as int]));
        assert(filters@.tags.take(i + 1) =~= filters@.tags.take(i as int).push(filters@.tags[i as int]));
        i = i + 1;
    }
    assert(filters@.tags.take(filters@.tags.len() as int) =~= filters@.tags);
    let regex = match &filters.regex {
        Some(p) => Some(string_from(p.as_str())),
        None => None,
    };
    PresetData {
        name: string_from(name),
        package: filters.package.clone(),
        tags,
        min_level: filters.min_level.rank(),
        text: filters.text.clone(),
        regex,
        format: *format,
    }
}

/// Applies a stored preset to the filters and the format.
pub fn apply_preset_data(data: PresetData, filters: &mut FilterState, format: &mut FormatConfig)
    ensures
        final(filters)@ == with_preset_filters(
            old(filters)@,
            data.package@,
            string_views(data.tags@),
            data.min_level,
            data.text@,
            match data.regex {
                Some(r) => Some(r@),
                None => None,
            },
        ),
        *final(format) == data.format,
{
    let ghost tv = string_views(data.tags@);
    filters.package = data.package;
    let mut tags: Vec<String> = Vec::new();
    let mut i: usize = 0;
    while i < data.tags.len()
        invariant
            i <= data.tags@.len(),
            tv == string_views(data.tags@),
            string_views(tags@) == unique_items(tv.take(i as int)),
        decreases data.tags@.len() - i,
    {
        add_unique_string(&mut tags, data.tags[i].as_str());
        assert(tv.take(i + 1).drop_last() =~= tv.take(i as int));
        assert(tv[i as int] == data.tags@[i as int]@);
        i = i + 1;
    }
    assert(tv.take(tv.len() as int) =~= tv);
    filters.tags = tags;
    filters.min_level = level_from_code(data.min_level);
    filters.text = data.text;
    match data.regex {
        Some(p) => {
            let _ = filters.set_regex(p.as_str());
        },
        None => {
            filters.regex = None;
        },
    }
    *format = data.format;
}

} // verus!
