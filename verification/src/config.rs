//! Command-line options: colour themes, numbers, errors and the walk over
//! the argument list.

use vstd::prelude::*;
use crate::column::{GlyphStyle, glyph_style_named};
use crate::text::text_is;
use vstd::string::StringExecFns;

verus! {

/// A colour theme for the rain.
#[derive(Clone, Copy, Debug, PartialEq, Eq, Structural)]
pub enum Theme {
    Matrix,
    Amber,
    Ice,
}

/// The name under which each theme is given on the command line.
pub open spec fn theme_name(t: Theme) -> Seq<char> {
    match t {
        Theme::Matrix => "matrix"@,
        Theme::Amber => "amber"@,
        Theme::Ice => "ice"@,
    }
}

/// The theme whose name is `s`, if any.
pub open spec fn theme_named(s: Seq<char>) -> Option<Theme> {
    if s == theme_name(Theme::Matrix) {
        Some(Theme::Matrix)
    } else if s == theme_name(Theme::Amber) {
        Some(Theme::Amber)
    } else if s == theme_name(Theme::Ice) {
        Some(Theme::Ice)
    } else {
        None
    }
}

impl Theme {
    /// The theme named by `value` ("matrix", "amber" or "ice"), or `None`.
    pub fn from_str(value: &str) -> (r: Option<Theme>)
        ensures
            r == theme_named(value@),
    {
        if text_is(value, "matrix") {
            Some(Theme::Matrix)
        } else if text_is(value, "amber") {
            Some(Theme::Amber)
        } else if text_is(value, "ice") {
            Some(Theme::Ice)
        } else {
            None
        }
    }

    /// The command-line name of this theme.
    pub fn as_str(self) -> (r: &'static str)
        ensures
            r@ == theme_name(self),
    {
        match self {
            Theme::Matrix => "matrix",
            Theme::Amber => "amber",
            Theme::Ice => "ice",
        }
    }
}

/// The help text.
pub const USAGE: &'static str = "Usage: matrix-rain [options]
  --fps <10-240>              Target frame rate (default: 30)
  --density <0.1-1.0>         Active column density (default: 1.0)
  --speed <0.5-2.0>           Global speed multiplier (default: 1.0)
  --glyph-style <classic|balanced|ascii>
                              Character style (default: balanced)
  --theme <matrix|amber|ice>  Color theme (default: matrix)
  -h, --help                  Show this help";

/// The help text that lists every option.
pub fn usage_text() -> (r: &'static str)
    ensures
        r@ == USAGE@,
{
    USAGE
}

/// The default frame rate, in frames per second.
pub const DEFAULT_FPS: u64 = 30;

/// The smallest frame rate accepted on the command line.
pub const MIN_FPS: u64 = 10;

/// The largest frame rate accepted on the command line.
pub const MAX_FPS: u64 = 240;

/// Nanoseconds per second.
pub const NANOS_PER_SECOND: u64 = 1_000_000_000;

/// The length of one frame, in nanoseconds, at `fps` frames per second
/// (a rate of 0 counts as 1).
pub fn frame_nanos(fps: u64) -> (r: u64)
    ensures
        r == NANOS_PER_SECOND / (if fps == 0 { 1 } else { fps }),
{
    let per = if fps == 0 { 1 } else { fps };
    NANOS_PER_SECOND / per
}

/// What went wrong on the command line, or that help was asked for.
#[derive(Clone, Debug)]
pub enum ConfigError {
    Help,
    MissingArgValue(&'static str),
    InvalidArgValue { key: &'static str, value: String, expected: &'static str },
    UnknownArg(String),
}

/// A `ConfigError` with its texts taken as character sequences.
pub enum ConfigFault {
    Help,
    MissingArgValue(Seq<char>),
    InvalidArgValue { key: Seq<char>, value: Seq<char>, expected: Seq<char> },
    UnknownArg(Seq<char>),
}

impl View for ConfigError {
    type V = ConfigFault;

    open spec fn view(&self) -> ConfigFault {
        match self {
            ConfigError::Help => ConfigFault::Help,
            ConfigError::MissingArgValue(k) => ConfigFault::MissingArgValue(k@),
            ConfigError::InvalidArgValue { key, value, expected } => ConfigFault::InvalidArgValue {
                key: key@,
                value: value@,
                expected: expected@,
            },
            ConfigError::UnknownArg(a) => ConfigFault::UnknownArg(a@),
        }
    }
}

/// The message that is shown for each error: the reason, then the help text.
pub open spec fn fault_message(f: ConfigFault) -> Seq<char> {
    match f {
        ConfigFault::Help => USAGE@,
        ConfigFault::MissingArgValue(key) => "missing value for "@ + key + "\n"@ + USAGE@,
        ConfigFault::InvalidArgValue { key, value, expected } => "invalid value '"@ + value
            + "' for "@ + key + "; expected "@ + expected + "\n"@ + USAGE@,
        ConfigFault::UnknownArg(arg) => "unknown argument '"@ + arg + "'\n"@ + USAGE@,
    }
}

impl ConfigError {
    /// The text shown to the user for this error.
    pub fn message(&self) -> (r: String)
        ensures
            r@ == fault_message(self@),
    {
        match self {
            ConfigError::Help => String::from_str(USAGE),
            ConfigError::MissingArgValue(key) => {
                let mut s = String::from_str("missing value for ");
                s.append(key);
                s.append("\n");
                s.append(USAGE);
                s
            },
            ConfigError::InvalidArgValue { key, value, expected } => {
                let mut s = String::from_str("invalid value '");
                s.append(value.as_str());
                s.append("' for ");
                s.append(key);
                s.append("; expected ");
                s.append(expected);
                s.append("\n");
                s.append(USAGE);
                s
            },
            ConfigError::UnknownArg(arg) => {
                let mut s = String::from_str("unknown argument '");
                s.append(arg.as_str());
                s.append("'\n");
                s.append(USAGE);
                s
            },
        }
    }
}

/// Whether `c` is one of the decimal digits `0` to `9`.
pub open spec fn is_decimal_digit(c: char) -> bool {
    '0' <= c && c <= '9'
}

/// The number that the decimal digits `s` spell.
pub open spec fn decimal_value(s: Seq<char>) -> nat
    decreases s.len(),
{
    if s.len() == 0 {
        0
    } else {
        decimal_value(s.drop_last()) * 10 + ((s.last() as int - '0' as int) as nat)
    }
}

/// The digits of an unsigned decimal text: what follows one optional `+`.
pub open spec fn unsigned_digits(s: Seq<char>) -> Seq<char> {
    if s.len() > 0 && s[0] == '+' {
        s.drop_first()
    } else {
        s
    }
}

/// The `u64` that `s` denotes as an unsigned decimal: an optional `+` and
/// then one or more digits, with nothing else, and a value that fits.
pub open spec fn u64_decimal(s: Seq<char>) -> Option<u64> {
    let d = unsigned_digits(s);
    if d.len() > 0 && (forall|i: int| 0 <= i < d.len() ==> is_decimal_digit(#[trigger] d[i]))
        && decimal_value(d) <= u64::MAX {
        Some(decimal_value(d) as u64)
    } else {
        None
    }
}

/// Parses `s` as a `u64` with std's `str::parse::<u64>`. std documents the
/// accepted text as an optional `+` sign followed by only decimal digits,
/// with any other character an error and a value above `u64::MAX` an error;
/// the contract states that as `u64_decimal`.
#[verifier::external_body]
fn parse_u64(s: &str) -> (r: Option<u64>)
    ensures
        r == u64_decimal(s@),
{
    s.parse::<u64>().ok()
}

/// What `--fps` with the text `value` gives: the rate when `value` is an
/// integer from 10 to 240, else the error that names the accepted range.
pub open spec fn fps_setting(value: Seq<char>) -> Result<u64, ConfigFault> {
    match u64_decimal(value) {
        Some(v) => if MIN_FPS <= v && v <= MAX_FPS {
            Ok(v)
        } else {
            Err(fps_fault(value))
        },
        None => Err(fps_fault(value)),
    }
}

/// The error for a frame rate that is not accepted.
pub open spec fn fps_fault(value: Seq<char>) -> ConfigFault {
    ConfigFault::InvalidArgValue {
        key: "--fps"@,
        value: value,
        expected: "integer in range 10..=240"@,
    }
}

/// Parses the value of `--fps`: an integer from 10 to 240.
pub fn parse_fps(value: &str) -> (r: Result<u64, ConfigError>)
    ensures
        match (r, fps_setting(value@)) {
            (Ok(a), Ok(b)) => a == b,
            (Err(e), Err(f)) => e@ == f,
            _ => false,
        },
        match u64_decimal(value@) {
            Some(v) => 10 <= v <= 240 ==> r == Ok::<u64, ConfigError>(v),
            None => true,
        },
        r matches Ok(v) ==> u64_decimal(value@) == Some(v) && 10 <= v <= 240,
        r matches Err(e) ==> e@ == (ConfigFault::InvalidArgValue {
            key: "--fps"@,
            value: value@,
            expected: "integer in range 10..=240"@,
        }),
{
    match parse_u64(value) {
        Some(v) => {
            if MIN_FPS <= v && v <= MAX_FPS {
                Ok(v)
            } else {
                Err(ConfigError::InvalidArgValue {
                    key: "--fps",
                    value: String::from_str(value),
                    expected: "integer in range 10..=240",
                })
            }
        },
        None => Err(
            ConfigError::InvalidArgValue {
                key: "--fps",
                value: String::from_str(value),
                expected: "integer in range 10..=240",
            },
        ),
    }
}

/// Takes the value that follows an option: the argument at `pos`, or the
/// error that names `key` when the list ends first.
pub fn next_value(args: &Vec<String>, pos: usize, key: &'static str) -> (r: Result<
    String,
    ConfigError,
>)
    ensures
        pos < args.len() ==> r == Ok::<String, ConfigError>(args@[pos as int]),
        pos >= args.len() ==> (r matches Err(e) && e@ == ConfigFault::MissingArgValue(key@)),
{
    if pos < args.len() {
        Ok(args[pos].clone())
    } else {
        Err(ConfigError::MissingArgValue(key))
    }
}

/// One option that the command line sets. The values of `--density` and
/// `--speed` are kept as given: they are decimal fractions, read by the caller.
#[derive(Clone, Debug)]
pub enum Setting {
    Fps(u64),
    Density(String),
    Speed(String),
    GlyphStyle(GlyphStyle),
    Theme(Theme),
}

/// A `Setting` with its text taken as a character sequence.
pub enum SettingModel {
    Fps(u64),
    Density(Seq<char>),
    Speed(Seq<char>),
    GlyphStyle(GlyphStyle),
    Theme(Theme),
}

impl View for Setting {
    type V = SettingModel;

    open spec fn view(&self) -> SettingModel {
        match self {
            Setting::Fps(v) => SettingModel::Fps(*v),
            Setting::Density(s) => SettingModel::Density(s@),
            Setting::Speed(s) => SettingModel::Speed(s@),
            Setting::GlyphStyle(g) => SettingModel::GlyphStyle(*g),
            Setting::Theme(t) => SettingModel::Theme(*t),
        }
    }
}

/// The texts of the arguments.
pub open spec fn arg_texts(args: Seq<String>) -> Seq<Seq<char>> {
    args.map_values(|s: String| s@)
}

/// The models of a list of settings.
pub open spec fn setting_models(s: Seq<Setting>) -> Seq<SettingModel> {
    s.map_values(|x: Setting| x@)
}

/// The model of an optional error.
pub open spec fn fault_of(e: Option<ConfigError>) -> Option<ConfigFault> {
    match e {
        Some(e) => Some(e@),
        None => None,
    }
}

/// Whether `a` names an option that takes a value.
pub open spec fn takes_value(a: Seq<char>) -> bool {
    ||| a == "--fps"@
    ||| a == "--density"@
    ||| a == "--speed"@
    ||| a == "--glyph-style"@
    ||| a == "--theme"@
}

/// What the option `key` (one that takes a value) sets to `value`, or the
/// error when `value` is not accepted.
pub open spec fn option_setting(key: Seq<char>, value: Seq<char>) -> Result<
    SettingModel,
    ConfigFault,
> {
    if key == "--fps"@ {
        match fps_setting(value) {
            Ok(v) => Ok(SettingModel::Fps(v)),
            Err(f) => Err(f),
        }
    } else if key == "--density"@ {
        Ok(SettingModel::Density(value))
    } else if key == "--speed"@ {
        Ok(SettingModel::Speed(value))
    } else if key == "--glyph-style"@ {
        match glyph_style_named(value) {
            Some(g) => Ok(SettingModel::GlyphStyle(g)),
            None => Err(
                ConfigFault::InvalidArgValue {
                    key: "--glyph-style"@,
                    value: value,
                    expected: "classic|balanced|ascii"@,
                },
            ),
        }
    } else {
        match theme_named(value) {
            Some(t) => Ok(SettingModel::Theme(t)),
            None => Err(
                ConfigFault::InvalidArgValue {
                    key: "--theme"@,
                    value: value,
                    expected: "matrix|amber|ice"@,
                },
            ),
        }
    }
}

/// The walk over the arguments from position `pos`: the settings read, in
/// order, up to the first argument that stops the walk, and what stopped it
/// (`None` when the list was read to its end). `--help` and `-h` stop it
/// with `Help`; an option that takes a value reads the next argument, and
/// stops it when there is none or the value is not accepted; any other
/// argument stops it as unknown.
pub open spec fn parse_from(args: Seq<Seq<char>>, pos: nat) -> (Seq<SettingModel>, Option<
    ConfigFault,
>)
    decreases args.len() - pos,
{
    if pos >= args.len() {
        (seq![], None)
    } else if args[pos as int] == "--help"@ || args[pos as int] == "-h"@ {
        (seq![], Some(ConfigFault::Help))
    } else if takes_value(args[pos as int]) {
        if pos + 1 >= args.len() {
            (seq![], Some(ConfigFault::MissingArgValue(args[pos as int])))
        } else {
            match option_setting(args[pos as int], args[pos + 1int]) {
                Ok(s) => {
                    let rest = parse_from(args, (pos + 2) as nat);
                    (seq![s] + rest.0, rest.1)
                },
                Err(f) => (seq![], Some(f)),
            }
        }
    } else {
        (seq![], Some(ConfigFault::UnknownArg(args[pos as int])))
    }
}

/// What reading the command line gives: the settings in the order given,
/// and what stopped the reading, if anything did.
pub struct ParsedArgs {
    pub settings: Vec<Setting>,
    pub stop: Option<ConfigError>,
}

/// Reads the option `key` with its value `value`.
fn read_option(key: &'static str, value: &String) -> (r: Result<Setting, ConfigError>)
    requires
        takes_value(key@),
    ensures
        match (r, option_setting(key@, value@)) {
            (Ok(a), Ok(b)) => a@ == b,
            (Err(e), Err(f)) => e@ == f,
            _ => false,
        },
{
    if text_is(key, "--fps") {
        match parse_fps(value.as_str()) {
            Ok(v) => Ok(Setting::Fps(v)),
            Err(e) => Err(e),
        }
    } else if text_is(key, "--density") {
        Ok(Setting::Density(value.clone()))
    } else if text_is(key, "--speed") {
        Ok(Setting::Speed(value.clone()))
    } else if text_is(key, "--glyph-style") {
        match GlyphStyle::from_str(value.as_str()) {
            Some(g) => Ok(Setting::GlyphStyle(g)),
            None => Err(
                ConfigError::InvalidArgValue {
                    key: "--glyph-style",
                    value: value.clone(),
                    expected: "classic|balanced|ascii",
                },
            ),
        }
    } else {
        match Theme::from_str(value.as_str()) {
            Some(t) => Ok(Setting::Theme(t)),
            None => Err(
                ConfigError::InvalidArgValue {
                    key: "--theme",
                    value: value.clone(),
                    expected: "matrix|amber|ice",
                },
            ),
        }
    }
}

/// The option that takes a value and is spelled `a`, if any.
fn value_option(a: &str) -> (r: Option<&'static str>)
    ensures
        r is Some <==> takes_value(a@),
        r matches Some(k) ==> k@ == a@,
{
    if text_is(a, "--fps") {
        Some("--fps")
    } else if text_is(a, "--density") {
        Some("--density")
    } else if text_is(a, "--speed") {
        Some("--speed")
    } else if text_is(a, "--glyph-style") {
        Some("--glyph-style")
    } else if text_is(a, "--theme") {
        Some("--theme")
    } else {
        None
    }
}

/// Reads the command-line arguments (the program name left out) as
/// `parse_from` says, from the first one.
pub fn parse_args(args: &Vec<String>) -> (r: ParsedArgs)
    ensures
        setting_models(r.settings@) == parse_from(arg_texts(args@), 0).0,
        fault_of(r.stop) == parse_from(arg_texts(args@), 0).1,
{
    let ghost texts = arg_texts(args@);
    let mut settings: Vec<Setting> = Vec::new();
    let mut pos: usize = 0;
    while pos < args.len()
        invariant
            texts == arg_texts(args@),
            texts.len() == args.len(),
            pos <= args.len(),
            parse_from(texts, 0).0 == setting_models(settings@) + parse_from(texts, pos as nat).0,
            parse_from(texts, 0).1 == parse_from(texts, pos as nat).1,
        decreases args.len() - pos,
    {
        let a: &String = &args[pos];
        assert(texts[pos as int] == a@);
        if text_is(a.as_str(), "--help") || text_is(a.as_str(), "-h") {
            proof {
                assert(setting_models(settings@) + seq![] =~= setting_models(settings@));
            }
            return ParsedArgs { settings, stop: Some(ConfigError::Help) };
        }
        match value_option(a.as_str()) {
            Some(key) => {
                if pos + 1 >= args.len() {
                    proof {
                        assert(setting_models(settings@) + seq![] =~= setting_models(settings@));
                    }
                    return ParsedArgs { settings, stop: Some(ConfigError::MissingArgValue(key)) };
                }
                assert(texts[pos + 1] == args@[pos + 1]@);
                match read_option(key, &args[pos + 1]) {
                    Ok(s) => {
                        let ghost before = setting_models(settings@);
                        settings.push(s);
                        proof {
                            assert(setting_models(settings@) =~= before + seq![s@]);
                            let rest = parse_from(texts, (pos + 2) as nat);
                            assert(parse_from(texts, pos as nat).0 == seq![s@] + rest.0);
                            assert(before + (seq![s@] + rest.0) =~= (before + seq![s@]) + rest.0);
                        }
                        pos = pos + 2;
                    },
                    Err(e) => {
                        proof {
                            assert(setting_models(settings@) + seq![] =~= setting_models(
                                settings@,
                            ));
                        }
                        return ParsedArgs { settings, stop: Some(e) };
                    },
                }
            },
            None => {
                proof {
                    assert(setting_models(settings@) + seq![] =~= setting_models(settings@));
                }
                return ParsedArgs { settings, stop: Some(ConfigError::UnknownArg(a.clone())) };
            },
        }
    }
    proof {
        assert(setting_models(settings@) + seq![] =~= setting_models(settings@));
    }
    ParsedArgs { settings, stop: None }
}

/// Every theme is read back from its own name.
pub proof fn lemma_theme_name_round_trip(t: Theme)
    ensures
        theme_named(theme_name(t)) == Some(t),
{
    reveal_strlit("matrix");
    reveal_strlit("amber");
    reveal_strlit("ice");
    assert("matrix"@ != "amber"@ && "matrix"@ != "ice"@ && "amber"@ != "ice"@) by {
        assert("matrix"@.len() != "amber"@.len());
        assert("matrix"@.len() != "ice"@.len());
        assert("amber"@.len() != "ice"@.len());
    }
}

/// Every glyph style is read back from its own name.
pub proof fn lemma_glyph_style_name_round_trip(g: GlyphStyle)
    ensures
        glyph_style_named(crate::column::glyph_style_name(g)) == Some(g),
{
    reveal_strlit("classic");
    reveal_strlit("balanced");
    reveal_strlit("ascii");
    assert("classic"@ != "balanced"@ && "classic"@ != "ascii"@ && "balanced"@ != "ascii"@) by {
        assert("classic"@.len() != "balanced"@.len());
        assert("classic"@.len() != "ascii"@.len());
        assert("balanced"@.len() != "ascii"@.len());
    }
}

/// A frame rate that the command line accepts lies from 10 to 240.
pub proof fn lemma_fps_in_range(value: Seq<char>)
    ensures
        fps_setting(value) matches Ok(v) ==> MIN_FPS <= v <= MAX_FPS,
{
}

/// A frame rate is accepted exactly when its text is an unsigned decimal
/// from 10 to 240, and then it is that number.
pub proof fn lemma_fps_accepts_exactly_range(value: Seq<char>)
    ensures
        match u64_decimal(value) {
            Some(v) => 10 <= v <= 240 ==> fps_setting(value) == Ok::<u64, ConfigFault>(v),
            None => true,
        },
        fps_setting(value) matches Ok(v) ==> u64_decimal(value) == Some(v) && 10 <= v <= 240,
        match u64_decimal(value) {
            Some(v) => !(10 <= v <= 240) ==> fps_setting(value) is Err,
            None => fps_setting(value) is Err,
        },
{
}

} // verus!
