use vstd::prelude::*;
use yaml_rust::{ScanError, YamlLoader};

verus! {

#[verifier::external_type_specification]
#[verifier::external_body]
pub struct ExScanError(ScanError);

/// What the tracker is told to watch.
#[derive(Debug)]
pub struct Config {
    /// Symbol of the trading pair, such as `ETHUSDT`.
    pub symbol: String,
    /// Time interval of the candles, such as `15m`.
    pub candle_interval: String,
}

/// Why a configuration could not be read.
#[derive(Clone, Copy, Debug, PartialEq, Eq, Structural)]
pub enum ConfigError {
    /// A line of the text is longer than `MAX_LINE_CHARS`.
    LineTooLong,
    /// The text is not YAML.
    Unparseable,
    /// The text holds no YAML document.
    Empty,
    /// `symbol` is missing or not a string.
    MissingSymbol,
    /// `candle_interval` is missing or not a string.
    MissingCandleInterval,
}

/// Longest line of a configuration text that is read. The YAML loader
/// descends once per level of block nesting without a limit; each deeper block
/// level starts at a greater column, and the column restarts at each `'\n'`,
/// so a bound on the line length bounds the depth of that descent. (Flow
/// nesting the loader bounds itself.)
pub const MAX_LINE_CHARS: usize = 1024;

/// Length of the last line of `s`: the characters after its last `'\n'`.
pub open spec fn last_line_len(s: Seq<char>) -> nat
    decreases s.len(),
{
    if s.len() == 0 {
        0
    } else if s.last() == '\n' {
        0
    } else {
        last_line_len(s.drop_last()) + 1
    }
}

/// Length of the longest line of `s`, lines being separated by `'\n'`.
pub open spec fn longest_line_len(s: Seq<char>) -> nat
    decreases s.len(),
{
    if s.len() == 0 {
        0
    } else {
        let before = longest_line_len(s.drop_last());
        let last = last_line_len(s);
        if before >= last {
            before
        } else {
            last
        }
    }
}

/// Length of the longest line of `text`.
pub fn longest_line(text: &str) -> (r: usize)
    ensures
        r == longest_line_len(text@),
{
    let n = text.unicode_len();
    let mut run: usize = 0;
    let mut longest: usize = 0;
    let mut i: usize = 0;
    while i < n
        invariant
            n == text@.len(),
            i <= n,
            run == last_line_len(text@.take(i as int)),
            longest == longest_line_len(text@.take(i as int)),
            run <= i,
            longest <= i,
        decreases n - i,
    {
        let c = text.get_char(i);
        assert(text@.take(i as int + 1).drop_last() =~= text@.take(i as int));
        if c == '\n' {
            run = 0;
        } else {
            run = run + 1;
        }
        if run > longest {
            longest = run;
        }
        i = i + 1;
    }
    assert(text@.take(n as int) =~= text@);
    longest
}

/// The text loads as YAML.
pub uninterp spec fn yaml_loads(text: Seq<char>) -> bool;

/// The number of documents that the text loads to.
pub uninterp spec fn yaml_doc_count(text: Seq<char>) -> nat;

/// The string under `key` in document `i` of the text, if that document is a
/// mapping and the value there is a string.
pub uninterp spec fn yaml_doc_str(text: Seq<char>, i: int, key: Seq<char>) -> Option<Seq<char>>;

pub open spec fn opt_view(o: Option<String>) -> Option<Seq<char>> {
    match o {
        Some(s) => Some(s@),
        None => None,
    }
}

/// Relies on `yaml_rust::YamlLoader::load_from_str`, which loads the text into
/// its documents or fails with a `ScanError`, and on `Index<&str>` and
/// `Yaml::as_str`, which give the string under `key` of each document (no
/// string where the document is not a mapping, the key is absent or its value
/// is not a string). The bound on line length keeps the loader's recursion
/// shallow.
#[verifier::external_body]
fn yaml_string_fields(text: &str, key: &str) -> (r: Result<Vec<Option<String>>, ScanError>)
    requires
        longest_line_len(text@) <= MAX_LINE_CHARS,
    ensures
        r is Ok == yaml_loads(text@),
        r is Ok ==> r->Ok_0@.len() == yaml_doc_count(text@),
        r is Ok ==> forall|i: int|
            0 <= i < r->Ok_0@.len() ==> opt_view(#[trigger] r->Ok_0@[i]) == yaml_doc_str(
                text@,
                i,
                key@,
            ),
{
    YamlLoader::load_from_str(text).map(
        |docs| docs.iter().map(|d| d[key].as_str().map(|v| v.to_string())).collect(),
    )
}

/// `r` is what the two looked-up values make: a configuration holding them,
/// or the error for the first one missing.
pub open spec fn config_from_values(
    r: Result<Config, ConfigError>,
    symbol: Option<Seq<char>>,
    candle_interval: Option<Seq<char>>,
) -> bool {
    match symbol {
        None => r == Err::<Config, ConfigError>(ConfigError::MissingSymbol),
        Some(s) => match candle_interval {
            None => r == Err::<Config, ConfigError>(ConfigError::MissingCandleInterval),
            Some(c) => r is Ok && r->Ok_0.symbol@ == s && r->Ok_0.candle_interval@ == c,
        },
    }
}

impl Config {
    /// Builds a configuration from the looked-up `symbol` and
    /// `candle_interval` values; a missing one is an error.
    pub fn from_fields(symbol: Option<String>, candle_interval: Option<String>) -> (r: Result<
        Config,
        ConfigError,
    >)
        ensures
            config_from_values(r, opt_view(symbol), opt_view(candle_interval)),
    {
        match symbol {
            None => Err(ConfigError::MissingSymbol),
            Some(symbol) => match candle_interval {
                None => Err(ConfigError::MissingCandleInterval),
                Some(candle_interval) => Ok(Config { symbol, candle_interval }),
            },
        }
    }

    /// Reads the configuration from the string fields `symbol` and
    /// `candle_interval` of the first document of a YAML text; later
    /// documents are ignored.
    pub fn from_yaml_str(text: &str) -> (r: Result<Config, ConfigError>)
        ensures
            longest_line_len(text@) > MAX_LINE_CHARS ==> r == Err::<Config, ConfigError>(
                ConfigError::LineTooLong,
            ),
            longest_line_len(text@) <= MAX_LINE_CHARS && !yaml_loads(text@) ==> r == Err::<
                Config,
                ConfigError,
            >(ConfigError::Unparseable),
            longest_line_len(text@) <= MAX_LINE_CHARS && yaml_loads(text@) && yaml_doc_count(text@) == 0
                ==> r == Err::<Config, ConfigError>(ConfigError::Empty),
            longest_line_len(text@) <= MAX_LINE_CHARS && yaml_loads(text@) && yaml_doc_count(text@) > 0
                ==> config_from_values(
                r,
                yaml_doc_str(text@, 0, "symbol"@),
                yaml_doc_str(text@, 0, "candle_interval"@),
            ),
    {
        if longest_line(text) > MAX_LINE_CHARS {
            return Err(ConfigError::LineTooLong);
        }
        let symbols = match yaml_string_fields(text, "symbol") {
            Err(_) => return Err(ConfigError::Unparseable),
            Ok(v) => v,
        };
        let intervals = match yaml_string_fields(text, "candle_interval") {
            Err(_) => return Err(ConfigError::Unparseable),
            Ok(v) => v,
        };
        if symbols.len() == 0 {
            return Err(ConfigError::Empty);
        }
        let mut symbols = symbols;
        let mut intervals = intervals;
        let symbol = symbols.swap_remove(0);
        let candle_interval = intervals.swap_remove(0);
        Self::from_fields(symbol, candle_interval)
    }
}

} // verus!
