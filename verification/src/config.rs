//! Configuration of a documentation run (`archdoc.toml`): defaults,
//! duration and size parsing, and validation.

use vstd::prelude::*;
use crate::errors::ArchDocError;
use crate::text::{
    all_digits, chars_of, concat3, digits_value, is_digit, str_eq, trim_bounds, trim_seq,
};

verus! {

// ================================================================ parsing
/// Number of leading decimal digits of `s`.
pub open spec fn digit_prefix_len(s: Seq<char>) -> nat
    decreases s.len(),
{
    if s.len() > 0 && is_digit(s[0]) {
        1 + digit_prefix_len(s.drop_first())
    } else {
        0
    }
}

/// The split of a trimmed value into its number and its unit suffix, or the message
/// that rejects it.
pub open spec fn split_numeric_suffix_spec(s: Seq<char>) -> Result<(Seq<char>, Seq<char>), Seq<char>> {
    let p = digit_prefix_len(s);
    if p == s.len() {
        Err("no unit suffix found in '"@ + s + "'"@)
    } else if p == 0 {
        Err("no numeric value found in '"@ + s + "'"@)
    } else {
        Ok((s.subrange(0, p as int), s.subrange(p as int, s.len() as int)))
    }
}

/// The message for a number that does not fit in `u64`.
pub open spec fn invalid_number_msg(num: Seq<char>) -> Seq<char> {
    "'"@ + num + "' is not a valid number"@
}

/// The number of seconds in one unit of a duration suffix.
pub open spec fn duration_unit(suffix: Seq<char>) -> Option<nat> {
    if suffix == "s"@ {
        Some(1)
    } else if suffix == "m"@ {
        Some(60)
    } else if suffix == "h"@ {
        Some(3600)
    } else if suffix == "d"@ {
        Some(86400)
    } else if suffix == "w"@ {
        Some(604800)
    } else {
        None
    }
}

/// What `parse_duration` gives for `s`: the number of seconds, or the error message.
/// The value is mathematical; `parse_duration` is only called where it fits in `u64`.
pub open spec fn duration_spec(s: Seq<char>) -> Result<nat, Seq<char>> {
    let t = trim_seq(s);
    if t.len() == 0 {
        Err("empty duration string"@)
    } else {
        match split_numeric_suffix_spec(t) {
            Err(e) => Err(e),
            Ok((num, suffix)) => {
                if digits_value(num) > u64::MAX {
                    Err(invalid_number_msg(num))
                } else {
                    match duration_unit(suffix) {
                        Some(u) => Ok(digits_value(num) * u),
                        None => Err(
                            "unknown duration suffix '"@ + suffix + "'. Use s, m, h, d, or w"@,
                        ),
                    }
                }
            },
        }
    }
}

/// ASCII upper-casing, which is what `str::to_uppercase` does to every character
/// that can upper-case into one of the size suffixes.
pub open spec fn upper_ascii(c: char) -> char {
    if 'a' <= c && c <= 'z' {
        ((c as u32) - 32) as char
    } else {
        c
    }
}

/// `suffix.to_uppercase() == target` for an upper-case ASCII `target`.
pub open spec fn upper_eq(suffix: Seq<char>, target: Seq<char>) -> bool {
    suffix.len() == target.len() && forall|i: int|
        0 <= i < suffix.len() ==> upper_ascii(#[trigger] suffix[i]) == target[i]
}

/// The number of bytes in one unit of a size suffix.
pub open spec fn size_unit(suffix: Seq<char>) -> Option<nat> {
    if upper_eq(suffix, "B"@) {
        Some(1)
    } else if upper_eq(suffix, "KB"@) || upper_eq(suffix, "K"@) {
        Some(1024)
    } else if upper_eq(suffix, "MB"@) || upper_eq(suffix, "M"@) {
        Some(1048576)
    } else if upper_eq(suffix, "GB"@) || upper_eq(suffix, "G"@) {
        Some(1073741824)
    } else {
        None
    }
}

/// What `parse_file_size` gives for `s`: the number of bytes, or the error message.
pub open spec fn file_size_spec(s: Seq<char>) -> Result<nat, Seq<char>> {
    let t = trim_seq(s);
    if t.len() == 0 {
        Err("empty file size string"@)
    } else {
        match split_numeric_suffix_spec(t) {
            Err(e) => Err(e),
            Ok((num, suffix)) => {
                if digits_value(num) > u64::MAX {
                    Err(invalid_number_msg(num))
                } else {
                    match size_unit(suffix) {
                        Some(u) => Ok(digits_value(num) * u),
                        None => Err(
                            "unknown size suffix '"@ + suffix + "'. Use B, KB, MB, or GB"@,
                        ),
                    }
                }
            },
        }
    }
}

/// The value of `r` fits in `u64` when it is a value.
pub open spec fn fits_u64(r: Result<nat, Seq<char>>) -> bool {
    r matches Ok(v) ==> v <= u64::MAX
}

pub proof fn lemma_digit_prefix(s: Seq<char>, i: int)
    requires
        0 <= i <= s.len(),
        forall|j: int| 0 <= j < i ==> is_digit(#[trigger] s[j]),
        i == s.len() || !is_digit(s[i]),
    ensures
        digit_prefix_len(s) == i,
    decreases i,
{
    if i > 0 {
        let t = s.drop_first();
        assert forall|j: int| 0 <= j < i - 1 implies is_digit(#[trigger] t[j]) by {
            assert(t[j] == s[j + 1]);
        }
        lemma_digit_prefix(t, i - 1);
    }
}

proof fn lemma_digits_value_monotone(s: Seq<char>, k: int)
    requires
        0 <= k <= s.len(),
        all_digits(s),
    ensures
        digits_value(s.subrange(0, k)) <= digits_value(s),
    decreases s.len() - k,
{
    if k < s.len() {
        lemma_digits_value_monotone(s, k + 1);
        assert(s.subrange(0, k + 1).drop_last() =~= s.subrange(0, k));
    } else {
        assert(s.subrange(0, k) =~= s);
    }
}

/// The value of a non-empty run of decimal digits, or `None` when it exceeds `u64`
/// (`str::parse::<u64>` on digits only).
pub fn parse_digits(s: &[char]) -> (r: Option<u64>)
    requires
        all_digits(s@),
    ensures
        r matches Some(v) ==> v == digits_value(s@),
        r is None ==> digits_value(s@) > u64::MAX,
{
    let n = s.len();
    let mut v: u64 = 0;
    let mut i: usize = 0;
    while i < n
        invariant
            n == s@.len(),
            i <= n,
            all_digits(s@),
            v == digits_value(s@.subrange(0, i as int)),
        decreases n - i,
    {
        assert(s@.subrange(0, i + 1).drop_last() =~= s@.subrange(0, i as int));
        assert(is_digit(s@[i as int]));
        let d = (s[i] as u32 - 48) as u64;
        match v.checked_mul(10) {
            Some(w) => match w.checked_add(d) {
                Some(x) => {
                    v = x;
                },
                None => {
                    proof {
                        lemma_digits_value_monotone(s@, i + 1);
                    }
                    return None;
                },
            },
            None => {
                proof {
                    lemma_digits_value_monotone(s@, i + 1);
                }
                return None;
            },
        }
        i = i + 1;
    }
    assert(s@.subrange(0, n as int) =~= s@);
    Some(v)
}

/// `s` with leading and trailing whitespace removed (`str::trim`).
fn trim_str(s: &str) -> (r: &str)
    ensures
        r@ == trim_seq(s@),
{
    let cs = chars_of(s);
    let (i, j) = trim_bounds(cs.as_slice());
    s.substring_char(i, j)
}

/// Splits a trimmed value into its number and its unit suffix.
fn split_numeric_suffix(s: &str) -> (r: Result<(&str, &str), String>)
    ensures
        match split_numeric_suffix_spec(s@) {
            Ok((a, b)) => r matches Ok((x, y)) && x@ == a && y@ == b,
            Err(e) => r matches Err(m) && m@ == e,
        },
        r matches Ok((x, _)) ==> all_digits(x@),
{
    let cs = chars_of(s);
    let n = cs.len();
    let mut pos: usize = 0;
    while pos < n && '0' <= cs[pos] && cs[pos] <= '9'
        invariant
            n == cs@.len(),
            pos <= n,
            forall|j: int| 0 <= j < pos ==> is_digit(#[trigger] cs@[j]),
        decreases n - pos,
    {
        pos = pos + 1;
    }
    proof {
        lemma_digit_prefix(cs@, pos as int);
    }
    if pos == n {
        return Err(concat3("no unit suffix found in '", s, "'"));
    }
    if pos == 0 {
        return Err(concat3("no numeric value found in '", s, "'"));
    }
    let a = s.substring_char(0, pos);
    assert(all_digits(a@)) by {
        assert forall|j: int| 0 <= j < a@.len() implies is_digit(#[trigger] a@[j]) by {
            assert(a@[j] == cs@[j]);
        }
    }
    Ok((a, s.substring_char(pos, n)))
}

/// Parses a duration such as `"24h"`, `"7d"` or `"30m"` into seconds; the units are
/// `s`, `m`, `h`, `d` and `w`.
pub fn parse_duration(s: &str) -> (r: Result<u64, String>)
    requires
        fits_u64(duration_spec(s@)),
    ensures
        match duration_spec(s@) {
            Ok(v) => r == Ok::<u64, String>(v as u64),
            Err(e) => r matches Err(m) && m@ == e,
        },
{
    let t = trim_str(s);
    if t.unicode_len() == 0 {
        return Err(String::from_str("empty duration string"));
    }
    let (num_str, suffix) = match split_numeric_suffix(t) {
        Ok(p) => p,
        Err(e) => {
            return Err(e);
        },
    };
    let num = chars_of(num_str);
    let value = match parse_digits(num.as_slice()) {
        Some(v) => v,
        None => {
            return Err(concat3("'", num_str, "' is not a valid number"));
        },
    };
    if str_eq(suffix, "s") {
        Ok(value)
    } else if str_eq(suffix, "m") {
        Ok(value * 60)
    } else if str_eq(suffix, "h") {
        Ok(value * 3600)
    } else if str_eq(suffix, "d") {
        Ok(value * 86400)
    } else if str_eq(suffix, "w") {
        Ok(value * 604800)
    } else {
        Err(concat3("unknown duration suffix '", suffix, "'. Use s, m, h, d, or w"))
    }
}

/// Whether `suffix.to_uppercase()` equals the upper-case ASCII `target`.
fn upper_eq_exec(suffix: &[char], target: &str) -> (r: bool)
    ensures
        r == upper_eq(suffix@, target@),
{
    let t = chars_of(target);
    if suffix.len() != t.len() {
        return false;
    }
    let n = t.len();
    let mut i: usize = 0;
    while i < n
        invariant
            n == t@.len() == suffix@.len(),
            t@ == target@,
            i <= n,
            forall|k: int| 0 <= k < i ==> upper_ascii(#[trigger] suffix@[k]) == t@[k],
        decreases n - i,
    {
        let c = suffix[i];
        let u = if 'a' <= c && c <= 'z' {
            ((c as u32) - 32) as u8 as char
        } else {
            c
        };
        if u != t[i] {
            return false;
        }
        i = i + 1;
    }
    true
}

/// The number of bytes that the file size `s` stands for (`"10MB"`, `"1GB"`,
/// `"500KB"`), in a width where every size that parses fits, or the error message.
pub fn file_size_bytes(s: &str) -> (r: Result<u128, String>)
    ensures
        match file_size_spec(s@) {
            Ok(v) => r matches Ok(x) && x == v,
            Err(e) => r matches Err(m) && m@ == e,
        },
{
    let t = trim_str(s);
    if t.unicode_len() == 0 {
        return Err(String::from_str("empty file size string"));
    }
    let (num_str, suffix) = match split_numeric_suffix(t) {
        Ok(p) => p,
        Err(e) => {
            return Err(e);
        },
    };
    let num = chars_of(num_str);
    let value = match parse_digits(num.as_slice()) {
        Some(v) => v,
        None => {
            return Err(concat3("'", num_str, "' is not a valid number"));
        },
    };
    let wide = value as u128;
    assert(wide * 1073741824 <= 0x4000_0000_0000_0000_0000_0000) by (nonlinear_arith)
        requires
            wide <= 0xffff_ffff_ffff_ffff,
    ;
    let suf = chars_of(suffix);
    if upper_eq_exec(suf.as_slice(), "B") {
        Ok(wide)
    } else if upper_eq_exec(suf.as_slice(), "KB") || upper_eq_exec(suf.as_slice(), "K") {
        Ok(wide * 1024)
    } else if upper_eq_exec(suf.as_slice(), "MB") || upper_eq_exec(suf.as_slice(), "M") {
        Ok(wide * 1048576)
    } else if upper_eq_exec(suf.as_slice(), "GB") || upper_eq_exec(suf.as_slice(), "G") {
        Ok(wide * 1073741824)
    } else {
        Err(concat3("unknown size suffix '", suffix, "'. Use B, KB, MB, or GB"))
    }
}

/// Parses a file size such as `"10MB"`, `"1GB"` or `"500KB"` into bytes; the units
/// are `B`, `KB`/`K`, `MB`/`M` and `GB`/`G` in any letter case.
pub fn parse_file_size(s: &str) -> (r: Result<u64, String>)
    requires
        fits_u64(file_size_spec(s@)),
    ensures
        match file_size_spec(s@) {
            Ok(v) => r == Ok::<u64, String>(v as u64),
            Err(e) => r matches Err(m) && m@ == e,
        },
{
    match file_size_bytes(s) {
        Ok(v) => Ok(v as u64),
        Err(e) => Err(e),
    }
}

} // verus!

verus! {

// ================================================================ settings
/// The views of a list of strings.
pub open spec fn strs(v: Vec<String>) -> Seq<Seq<char>> {
    v@.map_values(|s: String| s@)
}

/// The whole configuration; every section falls back to its defaults.
#[derive(Clone, Debug)]
pub struct Config {
    pub project: ProjectConfig,
    pub scan: ScanConfig,
    pub python: PythonConfig,
    pub analysis: AnalysisConfig,
    pub output: OutputConfig,
    pub diff: DiffConfig,
    pub thresholds: ThresholdsConfig,
    pub rendering: RenderingConfig,
    pub logging: LoggingConfig,
    pub caching: CachingConfig,
}

/// `[project]`: where the project and its documentation live.
#[derive(Clone, Debug)]
pub struct ProjectConfig {
    pub root: String,
    pub out_dir: String,
    pub entry_file: String,
    pub language: String,
    pub name: String,
}

/// `[scan]`: which files are analysed.
#[derive(Clone, Debug)]
pub struct ScanConfig {
    pub include_paths: Vec<String>,
    pub exclude: Vec<String>,
    pub follow_symlinks: bool,
    pub max_file_size: String,
}

/// `[python]`: Python-specific analysis settings.
#[derive(Clone, Debug)]
pub struct PythonConfig {
    pub src_roots: Vec<String>,
    pub include_tests: bool,
    pub parse_docstrings: bool,
    pub max_parse_errors: usize,
}

/// `[analysis]`: call resolution and integration detection.
#[derive(Clone, Debug)]
pub struct AnalysisConfig {
    pub resolve_calls: bool,
    pub resolve_inheritance: bool,
    pub detect_integrations: bool,
    pub integration_patterns: Vec<IntegrationPattern>,
}

/// One kind of integration (`http`, `db` or `queue`) and the library names that reveal it.
#[derive(Clone, Debug)]
pub struct IntegrationPattern {
    pub type_: String,
    pub patterns: Vec<String>,
}

/// `[output]`: shape of the generated documentation.
#[derive(Clone, Debug)]
pub struct OutputConfig {
    pub single_file: bool,
    pub per_file_docs: bool,
    pub create_directories: bool,
    pub overwrite_manual_sections: bool,
}

/// `[diff]`: how updates are written.
#[derive(Clone, Debug)]
pub struct DiffConfig {
    pub update_timestamp_on_change_only: bool,
    pub hash_algorithm: String,
    pub preserve_manual_content: bool,
}

/// `[thresholds]`: when a symbol counts as critical.
#[derive(Clone, Debug)]
pub struct ThresholdsConfig {
    pub critical_fan_in: usize,
    pub critical_fan_out: usize,
    pub high_complexity: usize,
}

/// `[rendering]`: presentation settings.
#[derive(Clone, Debug)]
pub struct RenderingConfig {
    pub template_engine: String,
    pub max_table_rows: usize,
    pub truncate_long_descriptions: bool,
    pub description_max_length: usize,
}

/// `[logging]`: log settings.
#[derive(Clone, Debug)]
pub struct LoggingConfig {
    pub level: String,
    pub file: String,
    pub format: String,
}

/// `[caching]`: the analysis cache.
#[derive(Clone, Debug)]
pub struct CachingConfig {
    pub enabled: bool,
    pub cache_dir: String,
    pub max_cache_age: String,
}

/// A `String` holding the literal `s`.
fn owned(s: &str) -> (r: String)
    ensures
        r@ == s@,
{
    String::from_str(s)
}

fn default_root() -> (r: String)
    ensures
        r@ == "."@,
{
    owned(".")
}

fn default_out_dir() -> (r: String)
    ensures
        r@ == "docs/architecture"@,
{
    owned("docs/architecture")
}

fn default_entry_file() -> (r: String)
    ensures
        r@ == "ARCHITECTURE.md"@,
{
    owned("ARCHITECTURE.md")
}

fn default_language() -> (r: String)
    ensures
        r@ == "python"@,
{
    owned("python")
}

/// The default project section.
pub open spec fn is_default_project(p: ProjectConfig) -> bool {
    &&& p.root@ == "."@
    &&& p.out_dir@ == "docs/architecture"@
    &&& p.entry_file@ == "ARCHITECTURE.md"@
    &&& p.language@ == "python"@
    &&& p.name@ == Seq::<char>::empty()
}

impl Default for ProjectConfig {
    fn default() -> (r: Self)
        ensures
            is_default_project(r),
    {
        ProjectConfig {
            root: default_root(),
            out_dir: default_out_dir(),
            entry_file: default_entry_file(),
            language: default_language(),
            name: String::new(),
        }
    }
}

/// The directories scanned by default.
pub open spec fn default_include_spec() -> Seq<Seq<char>> {
    seq!["src"@, "app"@, "tests"@]
}

/// The paths skipped by default.
pub open spec fn default_exclude_spec() -> Seq<Seq<char>> {
    seq![
        ".venv"@,
        "venv"@,
        "__pycache__"@,
        ".git"@,
        "dist"@,
        "build"@,
        ".mypy_cache"@,
        ".ruff_cache"@,
        ".pytest_cache"@,
        "*.egg-info"@,
    ]
}

fn push_owned(v: &mut Vec<String>, s: &str)
    ensures
        strs(*final(v)) == strs(*old(v)).push(s@),
{
    v.push(owned(s));
    assert(strs(*v) =~= strs(*old(v)).push(s@));
}

fn default_include() -> (r: Vec<String>)
    ensures
        strs(r) == default_include_spec(),
{
    let mut v: Vec<String> = Vec::new();
    assert(strs(v) =~= Seq::<Seq<char>>::empty());
    push_owned(&mut v, "src");
    push_owned(&mut v, "app");
    push_owned(&mut v, "tests");
    assert(strs(v) =~= default_include_spec());
    v
}

fn default_exclude() -> (r: Vec<String>)
    ensures
        strs(r) == default_exclude_spec(),
{
    let mut v: Vec<String> = Vec::new();
    assert(strs(v) =~= Seq::<Seq<char>>::empty());
    push_owned(&mut v, ".venv");
    push_owned(&mut v, "venv");
    push_owned(&mut v, "__pycache__");
    push_owned(&mut v, ".git");
    push_owned(&mut v, "dist");
    push_owned(&mut v, "build");
    push_owned(&mut v, ".mypy_cache");
    push_owned(&mut v, ".ruff_cache");
    push_owned(&mut v, ".pytest_cache");
    push_owned(&mut v, "*.egg-info");
    assert(strs(v) =~= default_exclude_spec());
    v
}

fn default_max_file_size() -> (r: String)
    ensures
        r@ == "10MB"@,
{
    owned("10MB")
}

/// The default scan section.
pub open spec fn is_default_scan(s: ScanConfig) -> bool {
    &&& strs(s.include_paths) == default_include_spec()
    &&& strs(s.exclude) == default_exclude_spec()
    &&& !s.follow_symlinks
    &&& s.max_file_size@ == "10MB"@
}

impl Default for ScanConfig {
    fn default() -> (r: Self)
        ensures
            is_default_scan(r),
    {
        ScanConfig {
            include_paths: default_include(),
            exclude: default_exclude(),
            follow_symlinks: false,
            max_file_size: default_max_file_size(),
        }
    }
}

fn default_src_roots() -> (r: Vec<String>)
    ensures
        strs(r) == seq!["src"@, "."@],
{
    let mut v: Vec<String> = Vec::new();
    assert(strs(v) =~= Seq::<Seq<char>>::empty());
    push_owned(&mut v, "src");
    push_owned(&mut v, ".");
    assert(strs(v) =~= seq!["src"@, "."@]);
    v
}

fn default_include_tests() -> (r: bool)
    ensures
        r,
{
    true
}

fn default_parse_docstrings() -> (r: bool)
    ensures
        r,
{
    true
}

fn default_max_parse_errors() -> (r: usize)
    ensures
        r == 10,
{
    10
}

/// The default Python section.
pub open spec fn is_default_python(p: PythonConfig) -> bool {
    &&& strs(p.src_roots) == seq!["src"@, "."@]
    &&& p.include_tests
    &&& p.parse_docstrings
    &&& p.max_parse_errors == 10
}

impl Default for PythonConfig {
    fn default() -> (r: Self)
        ensures
            is_default_python(r),
    {
        PythonConfig {
            src_roots: default_src_roots(),
            include_tests: default_include_tests(),
            parse_docstrings: default_parse_docstrings(),
            max_parse_errors: default_max_parse_errors(),
        }
    }
}

fn default_resolve_calls() -> (r: bool)
    ensures
        r,
{
    true
}

fn default_detect_integrations() -> (r: bool)
    ensures
        r,
{
    true
}

/// The view of an integration pattern: its kind and its library names.
pub open spec fn pattern_view(p: IntegrationPattern) -> (Seq<char>, Seq<Seq<char>>) {
    (p.type_@, strs(p.patterns))
}

/// The views of a list of integration patterns.
pub open spec fn patterns_view(v: Vec<IntegrationPattern>) -> Seq<(Seq<char>, Seq<Seq<char>>)> {
    v@.map_values(|p: IntegrationPattern| pattern_view(p))
}

/// The integration patterns used by default.
pub open spec fn default_patterns_spec() -> Seq<(Seq<char>, Seq<Seq<char>>)> {
    seq![
        ("http"@, seq!["requests"@, "httpx"@, "aiohttp"@]),
        ("db"@, seq!["sqlalchemy"@, "psycopg"@, "mysql"@, "sqlite3"@]),
        ("queue"@, seq!["celery"@, "kafka"@, "pika"@, "redis"@]),
    ]
}

fn default_integration_patterns() -> (r: Vec<IntegrationPattern>)
    ensures
        patterns_view(r) == default_patterns_spec(),
{
    let mut http: Vec<String> = Vec::new();
    assert(strs(http) =~= Seq::<Seq<char>>::empty());
    push_owned(&mut http, "requests");
    push_owned(&mut http, "httpx");
    push_owned(&mut http, "aiohttp");
    let mut db: Vec<String> = Vec::new();
    assert(strs(db) =~= Seq::<Seq<char>>::empty());
    push_owned(&mut db, "sqlalchemy");
    push_owned(&mut db, "psycopg");
    push_owned(&mut db, "mysql");
    push_owned(&mut db, "sqlite3");
    let mut queue: Vec<String> = Vec::new();
    assert(strs(queue) =~= Seq::<Seq<char>>::empty());
    push_owned(&mut queue, "celery");
    push_owned(&mut queue, "kafka");
    push_owned(&mut queue, "pika");
    push_owned(&mut queue, "redis");
    assert(strs(http) =~= seq!["requests"@, "httpx"@, "aiohttp"@]);
    assert(strs(db) =~= seq!["sqlalchemy"@, "psycopg"@, "mysql"@, "sqlite3"@]);
    assert(strs(queue) =~= seq!["celery"@, "kafka"@, "pika"@, "redis"@]);
    let mut v: Vec<IntegrationPattern> = Vec::new();
    v.push(IntegrationPattern { type_: owned("http"), patterns: http });
    v.push(IntegrationPattern { type_: owned("db"), patterns: db });
    v.push(IntegrationPattern { type_: owned("queue"), patterns: queue });
    assert(patterns_view(v) =~= default_patterns_spec());
    v
}

/// The default analysis section.
pub open spec fn is_default_analysis(a: AnalysisConfig) -> bool {
    &&& a.resolve_calls
    &&& !a.resolve_inheritance
    &&& a.detect_integrations
    &&& patterns_view(a.integration_patterns) == default_patterns_spec()
}

impl Default for AnalysisConfig {
    fn default() -> (r: Self)
        ensures
            is_default_analysis(r),
    {
        AnalysisConfig {
            resolve_calls: default_resolve_calls(),
            resolve_inheritance: false,
            detect_integrations: default_detect_integrations(),
            integration_patterns: default_integration_patterns(),
        }
    }
}

fn default_per_file_docs() -> (r: bool)
    ensures
        r,
{
    true
}

fn default_create_directories() -> (r: bool)
    ensures
        r,
{
    true
}

/// The default output section.
pub open spec fn is_default_output(o: OutputConfig) -> bool {
    &&& !o.single_file
    &&& o.per_file_docs
    &&& o.create_directories
    &&& !o.overwrite_manual_sections
}

impl Default for OutputConfig {
    fn default() -> (r: Self)
        ensures
            is_default_output(r),
    {
        OutputConfig {
            single_file: false,
            per_file_docs: default_per_file_docs(),
            create_directories: default_create_directories(),
            overwrite_manual_sections: false,
        }
    }
}

fn default_update_timestamp_on_change_only() -> (r: bool)
    ensures
        r,
{
    true
}

fn default_hash_algorithm() -> (r: String)
    ensures
        r@ == "sha256"@,
{
    owned("sha256")
}

fn default_preserve_manual_content() -> (r: bool)
    ensures
        r,
{
    true
}

/// The default diff section.
pub open spec fn is_default_diff(d: DiffConfig) -> bool {
    &&& d.update_timestamp_on_change_only
    &&& d.hash_algorithm@ == "sha256"@
    &&& d.preserve_manual_content
}

impl Default for DiffConfig {
    fn default() -> (r: Self)
        ensures
            is_default_diff(r),
    {
        DiffConfig {
            update_timestamp_on_change_only: default_update_timestamp_on_change_only(),
            hash_algorithm: default_hash_algorithm(),
            preserve_manual_content: default_preserve_manual_content(),
        }
    }
}

fn default_critical_fan_in() -> (r: usize)
    ensures
        r == 20,
{
    20
}

fn default_critical_fan_out() -> (r: usize)
    ensures
        r == 20,
{
    20
}

fn default_high_complexity() -> (r: usize)
    ensures
        r == 50,
{
    50
}

/// The default thresholds section.
pub open spec fn is_default_thresholds(t: ThresholdsConfig) -> bool {
    &&& t.critical_fan_in == 20
    &&& t.critical_fan_out == 20
    &&& t.high_complexity == 50
}

impl Default for ThresholdsConfig {
    fn default() -> (r: Self)
        ensures
            is_default_thresholds(r),
    {
        ThresholdsConfig {
            critical_fan_in: default_critical_fan_in(),
            critical_fan_out: default_critical_fan_out(),
            high_complexity: default_high_complexity(),
        }
    }
}

fn default_template_engine() -> (r: String)
    ensures
        r@ == "handlebars"@,
{
    owned("handlebars")
}

fn default_max_table_rows() -> (r: usize)
    ensures
        r == 100,
{
    100
}

fn default_truncate_long_descriptions() -> (r: bool)
    ensures
        r,
{
    true
}

fn default_description_max_length() -> (r: usize)
    ensures
        r == 200,
{
    200
}

/// The default rendering section.
pub open spec fn is_default_rendering(r: RenderingConfig) -> bool {
    &&& r.template_engine@ == "handlebars"@
    &&& r.max_table_rows == 100
    &&& r.truncate_long_descriptions
    &&& r.description_max_length == 200
}

impl Default for RenderingConfig {
    fn default() -> (r: Self)
        ensures
            is_default_rendering(r),
    {
        RenderingConfig {
            template_engine: default_template_engine(),
            max_table_rows: default_max_table_rows(),
            truncate_long_descriptions: default_truncate_long_descriptions(),
            description_max_length: default_description_max_length(),
        }
    }
}

fn default_log_level() -> (r: String)
    ensures
        r@ == "info"@,
{
    owned("info")
}

fn default_log_file() -> (r: String)
    ensures
        r@ == "archdoc.log"@,
{
    owned("archdoc.log")
}

fn default_log_format() -> (r: String)
    ensures
        r@ == "compact"@,
{
    owned("compact")
}

/// The default logging section.
pub open spec fn is_default_logging(l: LoggingConfig) -> bool {
    &&& l.level@ == "info"@
    &&& l.file@ == "archdoc.log"@
    &&& l.format@ == "compact"@
}

impl Default for LoggingConfig {
    fn default() -> (r: Self)
        ensures
            is_default_logging(r),
    {
        LoggingConfig {
            level: default_log_level(),
            file: default_log_file(),
            format: default_log_format(),
        }
    }
}

fn default_caching_enabled() -> (r: bool)
    ensures
        r,
{
    true
}

fn default_cache_dir() -> (r: String)
    ensures
        r@ == ".archdoc/cache"@,
{
    owned(".archdoc/cache")
}

fn default_max_cache_age() -> (r: String)
    ensures
        r@ == "24h"@,
{
    owned("24h")
}

/// The default caching section.
pub open spec fn is_default_caching(c: CachingConfig) -> bool {
    &&& c.enabled
    &&& c.cache_dir@ == ".archdoc/cache"@
    &&& c.max_cache_age@ == "24h"@
}

impl Default for CachingConfig {
    fn default() -> (r: Self)
        ensures
            is_default_caching(r),
    {
        CachingConfig {
            enabled: default_caching_enabled(),
            cache_dir: default_cache_dir(),
            max_cache_age: default_max_cache_age(),
        }
    }
}

impl Default for Config {
    fn default() -> (r: Self)
        ensures
            is_default_project(r.project),
            is_default_scan(r.scan),
            is_default_python(r.python),
            is_default_analysis(r.analysis),
            is_default_output(r.output),
            is_default_diff(r.diff),
            is_default_thresholds(r.thresholds),
            is_default_rendering(r.rendering),
            is_default_logging(r.logging),
            is_default_caching(r.caching),
    {
        Config {
            project: ProjectConfig::default(),
            scan: ScanConfig::default(),
            python: PythonConfig::default(),
            analysis: AnalysisConfig::default(),
            output: OutputConfig::default(),
            diff: DiffConfig::default(),
            thresholds: ThresholdsConfig::default(),
            rendering: RenderingConfig::default(),
            logging: LoggingConfig::default(),
            caching: CachingConfig::default(),
        }
    }
}

} // verus!

verus! {

// ================================================================ validation
/// The file-system facts that validation looks at: the root path probed, whether it
/// exists and is a directory, and for each `python.src_roots` entry its path resolved
/// against the root and whether that path exists.
pub struct PathProbe {
    pub root: String,
    pub root_exists: bool,
    pub root_is_dir: bool,
    pub src_roots: Vec<(String, bool)>,
}

/// The index of the first resolved source root that does not exist.
pub open spec fn first_missing(s: Seq<(String, bool)>) -> Option<int>
    decreases s.len(),
{
    if s.len() == 0 {
        None
    } else if !s[0].1 {
        Some(0)
    } else {
        match first_missing(s.drop_first()) {
            Some(i) => Some(i + 1),
            None => None,
        }
    }
}

proof fn lemma_first_missing(s: Seq<(String, bool)>, i: int)
    requires
        0 <= i <= s.len(),
        forall|k: int| 0 <= k < i ==> (#[trigger] s[k]).1,
    ensures
        i < s.len() && !s[i].1 ==> first_missing(s) == Some(i),
        i == s.len() ==> first_missing(s) is None,
    decreases i,
{
    if i > 0 {
        let t = s.drop_first();
        assert forall|k: int| 0 <= k < i - 1 implies (#[trigger] t[k]).1 by {
            assert(t[k] == s[k + 1]);
        }
        lemma_first_missing(t, i - 1);
    }
}

/// The message of the empty-include error.
pub open spec fn empty_include_msg() -> Seq<char> {
    "scan.include must not be empty — at least one directory must be specified"@
}

/// What validation decides for configuration `c` given the file-system facts `p`:
/// success, or the message of the first rule that fails.
pub open spec fn validation_spec(c: Config, p: PathProbe) -> Result<(), Seq<char>> {
    if !p.root_exists {
        Err("project.root '"@ + c.project.root@ + "' does not exist"@)
    } else if !p.root_is_dir {
        Err("project.root '"@ + c.project.root@ + "' is not a directory"@)
    } else if c.project.language@ != "python"@ {
        Err(
            "project.language '"@ + c.project.language@
                + "' is not supported. Only 'python' is currently supported"@,
        )
    } else if c.scan.include_paths@.len() == 0 {
        Err(empty_include_msg())
    } else {
        match first_missing(p.src_roots@) {
            Some(i) => Err(
                "python.src_roots entry '"@ + c.python.src_roots@[i]@
                    + "' does not exist (resolved to '"@ + p.src_roots@[i].0@ + "')"@,
            ),
            None => match duration_spec(c.caching.max_cache_age@) {
                Err(e) => Err(
                    "caching.max_cache_age '"@ + c.caching.max_cache_age@ + "' is not valid: "@
                        + e + ". Use formats like '24h', '7d', '30m'"@,
                ),
                Ok(_) => match file_size_spec(c.scan.max_file_size@) {
                    Err(e) => Err(
                        "scan.max_file_size '"@ + c.scan.max_file_size@ + "' is not valid: "@
                            + e + ". Use formats like '10MB', '1GB', '500KB'"@,
                    ),
                    Ok(_) => Ok(()),
                },
            },
        }
    }
}

/// `r` is the outcome that `spec` describes, a `ConfigError` carrying the message.
pub open spec fn config_outcome(r: Result<(), ArchDocError>, spec: Result<(), Seq<char>>) -> bool {
    match spec {
        Ok(_) => r is Ok,
        Err(m) => r matches Err(ArchDocError::ConfigError(e)) && e@ == m,
    }
}

/// The size and duration values of `c` fit in `u64` (larger ones overflow the
/// multiplication by the unit).
pub open spec fn config_values_fit(c: Config) -> bool {
    &&& fits_u64(duration_spec(c.caching.max_cache_age@))
    &&& fits_u64(file_size_spec(c.scan.max_file_size@))
}

/// Whether `p` exists on the file system (`std::path::Path::exists`).
///
/// Nothing is claimed of the answer: it depends on the file system.
#[verifier::external_body]
fn path_exists(p: &str) -> bool {
    std::path::Path::new(p).exists()
}

/// Whether `p` is a directory (`std::path::Path::is_dir`).
///
/// Nothing is claimed of the answer: it depends on the file system.
#[verifier::external_body]
fn path_is_dir(p: &str) -> bool {
    std::path::Path::new(p).is_dir()
}

/// The text of `rel` resolved against `base` by `std::path::Path::join` and displayed:
/// the path that the configuration names by `rel` when its root is `base`.
pub uninterp spec fn joined_path(base: Seq<char>, rel: Seq<char>) -> Seq<char>;

/// `rel` resolved against `base` (`std::path::Path::join`), as displayed.
///
/// The result is named by `joined_path` of the two texts; what that text is (which
/// separator joins them, what an absolute `rel` does) is left to the platform's path
/// rules and not stated.
#[verifier::external_body]
fn path_join(base: &str, rel: &str) -> (r: String)
    ensures
        r@ == joined_path(base@, rel@),
{
    std::path::Path::new(base).join(rel).display().to_string()
}

impl Config {
    /// Validates the configuration against the given file-system facts.
    pub fn check_with_probe(&self, probe: &PathProbe) -> (r: Result<(), ArchDocError>)
        requires
            probe.src_roots@.len() == self.python.src_roots@.len(),
            config_values_fit(*self),
        ensures
            config_outcome(r, validation_spec(*self, *probe)),
    {
        if !probe.root_exists {
            return Err(
                ArchDocError::ConfigError(
                    concat3("project.root '", self.project.root.as_str(), "' does not exist"),
                ),
            );
        }
        if !probe.root_is_dir {
            return Err(
                ArchDocError::ConfigError(
                    concat3("project.root '", self.project.root.as_str(), "' is not a directory"),
                ),
            );
        }
        if !str_eq(self.project.language.as_str(), "python") {
            return Err(
                ArchDocError::ConfigError(
                    concat3(
                        "project.language '",
                        self.project.language.as_str(),
                        "' is not supported. Only 'python' is currently supported",
                    ),
                ),
            );
        }
        if self.scan.include_paths.len() == 0 {
            return Err(
                ArchDocError::ConfigError(
                    String::from_str(
                        "scan.include must not be empty — at least one directory must be specified",
                    ),
                ),
            );
        }
        let n = probe.src_roots.len();
        let mut i: usize = 0;
        while i < n
            invariant
                n == probe.src_roots@.len(),
                n == self.python.src_roots@.len(),
                i <= n,
                probe.root_exists,
                probe.root_is_dir,
                self.project.language@ == "python"@,
                self.scan.include_paths@.len() != 0,
                forall|k: int| 0 <= k < i ==> (#[trigger] probe.src_roots@[k]).1,
            decreases n - i,
        {
            if !probe.src_roots[i].1 {
                proof {
                    lemma_first_missing(probe.src_roots@, i as int);
                }
                let mut m = concat3(
                    "python.src_roots entry '",
                    self.python.src_roots[i].as_str(),
                    "' does not exist (resolved to '",
                );
                m.append(probe.src_roots[i].0.as_str());
                m.append("')");
                return Err(ArchDocError::ConfigError(m));
            }
            i = i + 1;
        }
        proof {
            lemma_first_missing(probe.src_roots@, n as int);
        }
        if let Err(e) = parse_duration(self.caching.max_cache_age.as_str()) {
            let mut m = concat3(
                "caching.max_cache_age '",
                self.caching.max_cache_age.as_str(),
                "' is not valid: ",
            );
            m.append(e.as_str());
            m.append(". Use formats like '24h', '7d', '30m'");
            return Err(ArchDocError::ConfigError(m));
        }
        if let Err(e) = parse_file_size(self.scan.max_file_size.as_str()) {
            let mut m = concat3(
                "scan.max_file_size '",
                self.scan.max_file_size.as_str(),
                "' is not valid: ",
            );
            m.append(e.as_str());
            m.append(". Use formats like '10MB', '1GB', '500KB'");
            return Err(ArchDocError::ConfigError(m));
        }
        Ok(())
    }

    /// Validates the configuration: `project.root` exists and is a directory, the
    /// language is Python, `scan.include` is not empty, every `python.src_roots` entry
    /// exists under the root, and the cache age and file size limits parse. Each source
    /// root is probed at its path joined onto `project.root`.
    pub fn validate(&self) -> (r: Result<(), ArchDocError>)
        requires
            config_values_fit(*self),
        ensures
            exists|p: PathProbe|
                {
                    &&& p.root@ == self.project.root@
                    &&& p.src_roots@.len() == self.python.src_roots@.len()
                    &&& forall|i: int|
                        0 <= i < p.src_roots@.len() ==> (#[trigger] p.src_roots@[i]).0@ == joined_path(
                            self.project.root@,
                            self.python.src_roots@[i]@,
                        )
                    &&& config_outcome(r, #[trigger] validation_spec(*self, p))
                },
    {
        let root = self.project.root.as_str();
        let root_exists = path_exists(root);
        let root_is_dir = path_is_dir(root);
        let mut src_roots: Vec<(String, bool)> = Vec::new();
        let n = self.python.src_roots.len();
        let mut i: usize = 0;
        while i < n
            invariant
                n == self.python.src_roots@.len(),
                i <= n,
                src_roots@.len() == i,
                root@ == self.project.root@,
                forall|k: int|
                    0 <= k < i ==> (#[trigger] src_roots@[k]).0@ == joined_path(
                        self.project.root@,
                        self.python.src_roots@[k]@,
                    ),
            decreases n - i,
        {
            let resolved = path_join(root, self.python.src_roots[i].as_str());
            let exists = path_exists(resolved.as_str());
            src_roots.push((resolved, exists));
            i = i + 1;
        }
        let probe = PathProbe { root: String::from_str(root), root_exists, root_is_dir, src_roots };
        self.check_with_probe(&probe)
    }
}

} // verus!
