//! The configuration file: flat `key = value` lines, `#` comments, defaults
//! for every missing key.
use vstd::prelude::*;
use vstd::string::StringExecFns;

use crate::text::{
    chars_of, decimal, decimal_string, find_first, first_index, lines_of, parse_u32, parse_unsigned, split_lines, str_eq,
    trim, trim_str, views,
};
use crate::version::{opt_view, threshold_name, threshold_of_name, Threshold};

verus! {

/// The lower-case form of a text, as `str::to_lowercase` gives it.
pub uninterp spec fn lower_of(s: Seq<char>) -> Seq<char>;

/// Relies on `str::to_lowercase`: its result is a function of the characters alone.
#[verifier::external_body]
fn lowercase(s: &str) -> (r: String)
    ensures
        r@ == lower_of(s@),
{
    s.to_lowercase()
}

/// The truth value that a lower-case word stands for.
pub open spec fn bool_of_word(w: Seq<char>) -> Option<bool> {
    if w == "true"@ || w == "yes"@ || w == "1"@ {
        Some(true)
    } else if w == "false"@ || w == "no"@ || w == "0"@ {
        Some(false)
    } else {
        None
    }
}

/// Reads a lower-case truth value: `true`, `yes`, `1`, `false`, `no` or `0`.
pub fn bool_from_word(w: &str) -> (r: Option<bool>)
    ensures
        r == bool_of_word(w@),
{
    if str_eq(w, "true") || str_eq(w, "yes") || str_eq(w, "1") {
        Some(true)
    } else if str_eq(w, "false") || str_eq(w, "no") || str_eq(w, "0") {
        Some(false)
    } else {
        None
    }
}

/// Reads a truth value in any letter case.
pub fn parse_bool(s: &str) -> (r: Option<bool>)
    ensures
        r == bool_of_word(lower_of(s@)),
{
    let lower = lowercase(s);
    bool_from_word(lower.as_str())
}

/// The helpers whose command line is built in.
pub open spec fn known_helper_list() -> Seq<Seq<char>> {
    seq!["paru"@, "yay"@, "pikaur"@, "aura"@, "trizen"@]
}

/// The helpers whose command line is built in, in order of preference.
pub fn known_helpers() -> (r: Vec<String>)
    ensures
        views(r@) == known_helper_list(),
{
    let mut v: Vec<String> = Vec::new();
    v.push(String::from_str("paru"));
    v.push(String::from_str("yay"));
    v.push(String::from_str("pikaur"));
    v.push(String::from_str("aura"));
    v.push(String::from_str("trizen"));
    assert(views(v@) =~= known_helper_list());
    v
}

/// Settings of the program.
#[derive(Debug, Clone, PartialEq, Eq)]
pub struct Config {
    /// Threshold for triggers that have no curated one.
    pub version_threshold: Threshold,
    /// Helper command line; `None` means detect one when rebuilding.
    pub helper: Option<String>,
    /// Whether a rebuild takes in what `checkrebuild` reports.
    pub include_checkrebuild: bool,
    /// Days to keep trigger events; 0 keeps them for ever.
    pub retention_days: u32,
}

pub struct ConfigView {
    pub version_threshold: Threshold,
    pub helper: Option<Seq<char>>,
    pub include_checkrebuild: bool,
    pub retention_days: u32,
}

impl View for Config {
    type V = ConfigView;

    open spec fn view(&self) -> ConfigView {
        ConfigView {
            version_threshold: self.version_threshold,
            helper: opt_view(self.helper),
            include_checkrebuild: self.include_checkrebuild,
            retention_days: self.retention_days,
        }
    }
}

/// The settings when the file says nothing.
pub open spec fn default_config() -> ConfigView {
    ConfigView {
        version_threshold: Threshold::Minor,
        helper: None,
        include_checkrebuild: false,
        retention_days: 90,
    }
}

impl Default for Config {
    fn default() -> (r: Config)
        ensures
            r@ == default_config(),
    {
        Config {
            version_threshold: Threshold::Minor,
            helper: None,
            include_checkrebuild: false,
            retention_days: 90,
        }
    }
}

/// Why the configuration could not be loaded.
#[derive(Debug)]
pub enum ConfigError {
    /// The file exists but could not be read; the text says why.
    Io(String),
    /// A line of the file is wrong.
    Parse {
        /// Line number, from 1.
        line: usize,
        /// What is wrong with it.
        message: String,
    },
}

/// The effect of one line on the settings read so far, or what is wrong with it.
pub open spec fn apply_line(c: ConfigView, raw: Seq<char>) -> Result<ConfigView, Seq<char>> {
    let line = trim(raw);
    if line.len() == 0 || line[0] == '#' {
        Ok(c)
    } else {
        match first_index(line, '=') {
            None => Err("expected 'key = value' format"@),
            Some(k) => {
                let key = trim(line.take(k));
                let value = trim(line.skip(k + 1));
                if key == "version_threshold"@ {
                    match threshold_of_name(value) {
                        Some(t) => Ok(ConfigView { version_threshold: t, ..c }),
                        None => Err(
                            "invalid version_threshold '"@ + value
                                + "', expected: major, minor, patch, always"@,
                        ),
                    }
                } else if key == "helper"@ {
                    Ok(
                        ConfigView {
                            helper: if value.len() == 0 {
                                None
                            } else {
                                Some(value)
                            },
                            ..c
                        },
                    )
                } else if key == "include_checkrebuild"@ {
                    match bool_of_word(lower_of(value)) {
                        Some(b) => Ok(ConfigView { include_checkrebuild: b, ..c }),
                        None => Err(
                            "invalid include_checkrebuild '"@ + value + "', expected: true, false"@,
                        ),
                    }
                } else if key == "retention_days"@ {
                    match parse_unsigned(value, u32::MAX as nat) {
                        Some(n) => Ok(ConfigView { retention_days: n as u32, ..c }),
                        None => Err(
                            "invalid retention_days '"@ + value
                                + "', expected non-negative integer"@,
                        ),
                    }
                } else {
                    Err("unknown key '"@ + key + "'"@)
                }
            },
        }
    }
}

/// The settings that the lines give, or the number (from 1) and message of
/// the first wrong line.
pub open spec fn config_of_lines(lines: Seq<Seq<char>>) -> Result<ConfigView, (int, Seq<char>)>
    decreases lines.len(),
{
    if lines.len() == 0 {
        Ok(default_config())
    } else {
        match config_of_lines(lines.drop_last()) {
            Err(e) => Err(e),
            Ok(c) => match apply_line(c, lines.last()) {
                Ok(c2) => Ok(c2),
                Err(m) => Err((lines.len() as int, m)),
            },
        }
    }
}

/// The settings that a configuration text gives.
pub open spec fn parse_config(text: Seq<char>) -> Result<ConfigView, (int, Seq<char>)> {
    config_of_lines(split_lines(text))
}

fn concat3(a: &str, b: &str, c: &str) -> (r: String)
    ensures
        r@ == a@ + b@ + c@,
{
    let mut s = String::from_str(a);
    s.append(b);
    s.append(c);
    s
}

impl Config {
    fn apply(&mut self, raw: &str) -> (r: Result<(), String>)
        ensures
            match apply_line(old(self)@, raw@) {
                Ok(c) => r is Ok && final(self)@ == c,
                Err(m) => r matches Err(e) && e@ == m,
            },
    {
        let line = trim_str(raw);
        let lc = chars_of(line.as_str());
        if lc.len() == 0 || lc[0] == '#' {
            return Ok(());
        }
        let k = match find_first(&lc, '=') {
            None => {
                return Err(String::from_str("expected 'key = value' format"));
            },
            Some(k) => k,
        };
        let key = trim_str(line.as_str().substring_char(0, k));
        let value = trim_str(line.as_str().substring_char(k + 1, lc.len()));
        let key = key.as_str();
        let value_str = value.as_str();
        if str_eq(key, "version_threshold") {
            match Threshold::from_name(value_str) {
                Some(t) => {
                    self.version_threshold = t;
                    Ok(())
                },
                None => Err(
                    concat3(
                        "invalid version_threshold '",
                        value_str,
                        "', expected: major, minor, patch, always",
                    ),
                ),
            }
        } else if str_eq(key, "helper") {
            if value_str.unicode_len() == 0 {
                self.helper = None;
            } else {
                self.helper = Some(value);
            }
            Ok(())
        } else if str_eq(key, "include_checkrebuild") {
            match parse_bool(value_str) {
                Some(b) => {
                    self.include_checkrebuild = b;
                    Ok(())
                },
                None => Err(
                    concat3("invalid include_checkrebuild '", value_str, "', expected: true, false"),
                ),
            }
        } else if str_eq(key, "retention_days") {
            match parse_u32(value_str) {
                Some(n) => {
                    self.retention_days = n;
                    Ok(())
                },
                None => Err(
                    concat3(
                        "invalid retention_days '",
                        value_str,
                        "', expected non-negative integer",
                    ),
                ),
            }
        } else {
            Err(concat3("unknown key '", key, "'"))
        }
    }

    /// Reads a configuration text, line by line from the defaults; fails on
    /// the first line that is neither blank, a comment nor a known
    /// `key = value`, with its number and what is wrong.
    pub fn parse(contents: &str) -> (r: Result<Config, ConfigError>)
        ensures
            match r {
                Ok(c) => parse_config(contents@) == Ok::<ConfigView, (int, Seq<char>)>(c@),
                Err(ConfigError::Parse { line, message }) => parse_config(contents@) == Err::<
                    ConfigView,
                    (int, Seq<char>),
                >((line as int, message@)),
                Err(ConfigError::Io(_)) => false,
            },
    {
        let lines = lines_of(contents);
        let ghost ls = views(lines@);
        let mut config = Config::default();
        let mut i: usize = 0;
        assert(ls.take(0) =~= Seq::<Seq<char>>::empty());
        while i < lines.len()
            invariant
                ls == views(lines@),
                ls == split_lines(contents@),
                i <= lines.len(),
                config_of_lines(ls.take(i as int)) == Ok::<ConfigView, (int, Seq<char>)>(config@),
            decreases lines.len() - i,
        {
            assert(ls.take(i + 1).drop_last() =~= ls.take(i as int));
            assert(ls.take(i + 1).last() == lines@[i as int]@);
            match config.apply(lines[i].as_str()) {
                Ok(()) => {},
                Err(message) => {
                    proof {
                        lemma_config_error_stays(ls, i as int + 1);
                    }
                    return Err(ConfigError::Parse { line: i + 1, message });
                },
            }
            i = i + 1;
        }
        assert(ls.take(lines.len() as int) =~= ls);
        Ok(config)
    }
}

/// Once a line is wrong, the lines after it change nothing.
proof fn lemma_config_error_stays(ls: Seq<Seq<char>>, k: int)
    requires
        0 < k <= ls.len(),
        config_of_lines(ls.take(k)) is Err,
    ensures
        config_of_lines(ls) == config_of_lines(ls.take(k)),
    decreases ls.len() - k,
{
    if k == ls.len() {
        assert(ls.take(k) =~= ls);
    } else {
        assert(ls.take(k + 1).drop_last() =~= ls.take(k));
        lemma_config_error_stays(ls, k + 1);
    }
}

/// The text of a boolean setting.
pub open spec fn bool_text(b: bool) -> Seq<char> {
    if b {
        "true"@
    } else {
        "false"@
    }
}

/// The configuration file that states `c`, one line per key.
pub open spec fn conf_text(c: ConfigView) -> Seq<char> {
    "version_threshold = "@ + threshold_name(c.version_threshold) + "\n"@ + match c.helper {
        Some(h) => "helper = "@ + h + "\n"@,
        None => "# helper =\n"@,
    } + "include_checkrebuild = "@ + bool_text(c.include_checkrebuild) + "\n"@
        + "retention_days = "@ + decimal(c.retention_days as nat) + "\n"@
}

impl Config {
    /// Writes the settings in the file format.
    pub fn to_conf(&self) -> (r: String)
        ensures
            r@ == conf_text(self@),
    {
        let mut out = String::from_str("version_threshold = ");
        out.append(self.version_threshold.as_str());
        out.append("\n");
        match &self.helper {
            Some(h) => {
                out.append("helper = ");
                out.append(h.as_str());
                out.append("\n");
            },
            None => {
                out.append("# helper =\n");
            },
        }
        out.append("include_checkrebuild = ");
        out.append(if self.include_checkrebuild {
            "true"
        } else {
            "false"
        });
        out.append("\n");
        out.append("retention_days = ");
        let days = decimal_string(self.retention_days as u64);
        out.append(days.as_str());
        out.append("\n");
        assert(out@ =~= conf_text(self@));
        out
    }

    /// Whether `name` is a helper whose command line is built in.
    pub fn is_known_helper(name: &str) -> (r: bool)
        ensures
            r == known_helper_list().contains(name@),
    {
        let helpers = known_helpers();
        let ghost hs = views(helpers@);
        let mut i: usize = 0;
        while i < helpers.len()
            invariant
                hs == views(helpers@),
                hs == known_helper_list(),
                i <= helpers.len(),
                forall|j: int| 0 <= j < i ==> hs[j] != name@,
            decreases helpers.len() - i,
        {
            if str_eq(helpers[i].as_str(), name) {
                assert(hs[i as int] == name@);
                return true;
            }
            i = i + 1;
        }
        false
    }
}

} // verus!
