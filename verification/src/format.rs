//! Output formats a download can be written in.

use vstd::prelude::*;

use crate::text::{ascii_lower_seq, ascii_lower_vec, ascii_upper_seq, chars_of, eq_lit, lemma_ascii_lower_seq};

verus! {

#[derive(Debug, Clone, Copy, PartialEq, Eq, Structural)]
pub enum OutputFormat {
    Parquet,
    Csv,
    Json,
    Jsonl,
}

impl Default for OutputFormat {
    fn default() -> (f: Self)
        ensures
            f == OutputFormat::Parquet,
    {
        OutputFormat::Parquet
    }
}

impl OutputFormat {
    pub open spec fn ext(self) -> Seq<char> {
        match self {
            OutputFormat::Parquet => "parquet"@,
            OutputFormat::Csv => "csv"@,
            OutputFormat::Json => "json"@,
            OutputFormat::Jsonl => "jsonl"@,
        }
    }

    /// The file extension, which is also the name the queue stores.
    pub fn extension(self) -> (r: &'static str)
        ensures
            r@ == self.ext(),
    {
        match self {
            OutputFormat::Parquet => "parquet",
            OutputFormat::Csv => "csv",
            OutputFormat::Json => "json",
            OutputFormat::Jsonl => "jsonl",
        }
    }

    /// The format a name denotes, compared ASCII-case-insensitively:
    /// `parquet`/`pq`, `csv`, `json`, `jsonl`/`ndjson`.
    pub open spec fn from_name(s: Seq<char>) -> Option<OutputFormat> {
        let t = ascii_lower_seq(s);
        if t == "parquet"@ || t == "pq"@ {
            Some(OutputFormat::Parquet)
        } else if t == "csv"@ {
            Some(OutputFormat::Csv)
        } else if t == "json"@ {
            Some(OutputFormat::Json)
        } else if t == "jsonl"@ || t == "ndjson"@ {
            Some(OutputFormat::Jsonl)
        } else {
            None
        }
    }

    pub fn parse(s: &str) -> (r: Option<OutputFormat>)
        ensures
            r == OutputFormat::from_name(s@),
    {
        let v = chars_of(s);
        let t = ascii_lower_vec(v.as_slice());
        let t = t.as_slice();
        if eq_lit(t, "parquet") || eq_lit(t, "pq") {
            Some(OutputFormat::Parquet)
        } else if eq_lit(t, "csv") {
            Some(OutputFormat::Csv)
        } else if eq_lit(t, "json") {
            Some(OutputFormat::Json)
        } else if eq_lit(t, "jsonl") || eq_lit(t, "ndjson") {
            Some(OutputFormat::Jsonl)
        } else {
            None
        }
    }
}

/// Reading back the extension a format writes gives the same format.
pub proof fn law_extension_round_trips(f: OutputFormat)
    ensures
        OutputFormat::from_name(f.ext()) == Some(f),
{
    reveal_strlit("parquet");
    reveal_strlit("pq");
    reveal_strlit("csv");
    reveal_strlit("json");
    reveal_strlit("jsonl");
    reveal_strlit("ndjson");
    let e = f.ext();
    assert(ascii_lower_seq(e) =~= e);
}

/// A name reads as the same format whatever its ASCII case; in
/// particular each extension, written in capitals, reads back to its
/// format.
pub proof fn law_format_names_ignore_case(f: OutputFormat, s: Seq<char>)
    ensures
        OutputFormat::from_name(ascii_upper_seq(s)) == OutputFormat::from_name(s),
        OutputFormat::from_name(ascii_upper_seq(f.ext())) == Some(f),
{
    lemma_ascii_lower_seq(s);
    lemma_ascii_lower_seq(f.ext());
    law_extension_round_trips(f);
}

} // verus!
