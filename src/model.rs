use vstd::prelude::*;

verus! {

/// The format a piece of input was recognised as.
#[derive(Debug, Clone, Copy, PartialEq, Eq, Structural)]
pub enum DataFormat {
    Unknown,
    Json,
    Ndjson,
    Yaml,
    Toml,
    Csv,
    MarkdownTable,
}

/// The name under which a detected format is reported.
pub open spec fn format_name(f: DataFormat) -> Seq<char> {
    match f {
        DataFormat::Unknown => "unknown"@,
        DataFormat::Json => "json"@,
        DataFormat::Ndjson => "ndjson"@,
        DataFormat::Yaml => "yaml"@,
        DataFormat::Toml => "toml"@,
        DataFormat::Csv => "csv"@,
        DataFormat::MarkdownTable => "markdown_table"@,
    }
}

impl DataFormat {
    pub fn as_str(&self) -> (r: &'static str)
        ensures
            r@ == format_name(*self),
    {
        match self {
            DataFormat::Unknown => "unknown",
            DataFormat::Json => "json",
            DataFormat::Ndjson => "ndjson",
            DataFormat::Yaml => "yaml",
            DataFormat::Toml => "toml",
            DataFormat::Csv => "csv",
            DataFormat::MarkdownTable => "markdown_table",
        }
    }
}

/// An output serialization that a caller asked for.
#[derive(Debug, Clone)]
pub enum TargetFormat {
    Json,
    Yaml,
    Toml,
    Csv,
    MarkdownTable,
    Other(String),
}

/// The key under which a target's rendering is reported.
pub open spec fn target_name(t: TargetFormat) -> Seq<char> {
    match t {
        TargetFormat::Json => "json"@,
        TargetFormat::Yaml => "yaml"@,
        TargetFormat::Toml => "toml"@,
        TargetFormat::Csv => "csv"@,
        TargetFormat::MarkdownTable => "markdown_table"@,
        TargetFormat::Other(s) => s@,
    }
}

impl TargetFormat {
    pub fn name(&self) -> (r: String)
        ensures
            r@ == target_name(*self),
    {
        match self {
            TargetFormat::Json => String::from_str("json"),
            TargetFormat::Yaml => String::from_str("yaml"),
            TargetFormat::Toml => String::from_str("toml"),
            TargetFormat::Csv => String::from_str("csv"),
            TargetFormat::MarkdownTable => String::from_str("markdown_table"),
            TargetFormat::Other(s) => s.clone(),
        }
    }
}

/// The targets rendered when the caller names none.
pub open spec fn default_target_seq() -> Seq<TargetFormat> {
    seq![
        TargetFormat::Json,
        TargetFormat::Yaml,
        TargetFormat::Toml,
        TargetFormat::Csv,
        TargetFormat::MarkdownTable,
    ]
}

pub fn default_targets() -> (r: Vec<TargetFormat>)
    ensures
        r@ == default_target_seq(),
{
    let r = vec![
        TargetFormat::Json,
        TargetFormat::Yaml,
        TargetFormat::Toml,
        TargetFormat::Csv,
        TargetFormat::MarkdownTable,
    ];
    assert(r@ =~= default_target_seq());
    r
}

} // verus!
