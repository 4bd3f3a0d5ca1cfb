//! The command line: the options, their defaults, and the rules that a configuration obeys.

use crate::text::{
    ascii_alphanumeric, ascii_space, begins_with, chars_of, decimal, digits_value, has_char,
    is_ascii_alphanumeric, is_ascii_space, law_decimal_reads_back, law_only_the_trailing_run_goes,
    law_pieces_are_what_is_between, number, parse_number, pieces, same_text, spells, split_pieces,
    text_of, trim_trailing, views, without_trailing, NumberError,
};
use vstd::prelude::*;
use vstd::string::*;
use vstd::utf8::*;

verus! {

/// The host that the game's updater asks.
pub const HOST: &'static str = "cod4mw-ps3update.charlieoscardelta.com";

/// The longest destination path, in bytes.
pub const MAX_DESTINATION: usize = 400;

/// The longest base URL, in bytes.
pub const MAX_BASE_URL: usize = 800;

/// The longest message, in bytes.
pub const MAX_MESSAGE: usize = 500;

/// What the program was asked to do and to serve. The paths of files are plain strings.
#[derive(Debug)]
pub struct Config {
    /// The payload's file.
    pub file: String,
    /// A file with the payload's signature.
    pub signature: Option<String>,
    /// A file with the key to sign the payload with.
    pub private_key: Option<String>,
    /// Where the signature is saved.
    pub signature_out: Option<String>,
    /// Sign, save the signature and stop.
    pub sign_only: bool,
    /// A file with the key to check signatures with.
    pub public_key: Option<String>,
    /// The address to listen on.
    pub bind: String,
    /// The URL under which the client finds the server.
    pub base_url: String,
    /// The identifier of the game.
    pub title: String,
    /// The version that the client has.
    pub current: String,
    /// The version that the payload brings.
    pub version: String,
    /// Where the client puts the payload.
    pub destination: String,
    /// What the client shows to its user.
    pub message: String,
    /// Announce the payload under a signature that no client accepts.
    pub diagnostic: bool,
    /// Announce no update.
    pub no_update: bool,
    /// The disk space that the client is told to need.
    pub required_kb: Option<u64>,
}

/// The contents of a [`Config`].
pub struct ConfigView {
    pub file: Seq<char>,
    pub signature: Option<Seq<char>>,
    pub private_key: Option<Seq<char>>,
    pub signature_out: Option<Seq<char>>,
    pub sign_only: bool,
    pub public_key: Option<Seq<char>>,
    pub bind: Seq<char>,
    pub base_url: Seq<char>,
    pub title: Seq<char>,
    pub current: Seq<char>,
    pub version: Seq<char>,
    pub destination: Seq<char>,
    pub message: Seq<char>,
    pub diagnostic: bool,
    pub no_update: bool,
    pub required_kb: Option<u64>,
}

/// The contents of an optional string.
pub open spec fn opt_text(o: Option<String>) -> Option<Seq<char>> {
    match o {
        Some(s) => Some(s@),
        None => None,
    }
}

impl View for Config {
    type V = ConfigView;

    open spec fn view(&self) -> ConfigView {
        ConfigView {
            file: self.file@,
            signature: opt_text(self.signature),
            private_key: opt_text(self.private_key),
            signature_out: opt_text(self.signature_out),
            sign_only: self.sign_only,
            public_key: opt_text(self.public_key),
            bind: self.bind@,
            base_url: self.base_url@,
            title: self.title@,
            current: self.current@,
            version: self.version@,
            destination: self.destination@,
            message: self.message@,
            diagnostic: self.diagnostic,
            no_update: self.no_update,
            required_kb: self.required_kb,
        }
    }
}

/// The settings that are single tokens.
#[derive(Debug, Clone, Copy, PartialEq, Eq, Structural)]
pub enum Setting {
    Title,
    Current,
    Version,
    Destination,
    BaseUrl,
}

impl Setting {
    /// The name of the setting's option, without the dashes.
    pub open spec fn label(self) -> Seq<char> {
        match self {
            Setting::Title => "title"@,
            Setting::Current => "current"@,
            Setting::Version => "version"@,
            Setting::Destination => "destination"@,
            Setting::BaseUrl => "base-url"@,
        }
    }

    /// The name of the setting's option, without the dashes.
    pub fn name(&self) -> (r: &'static str)
        ensures
            r@ == self.label(),
    {
        match self {
            Setting::Title => "title",
            Setting::Current => "current",
            Setting::Version => "version",
            Setting::Destination => "destination",
            Setting::BaseUrl => "base-url",
        }
    }
}

/// Why a command line is refused.
#[derive(Debug)]
pub enum ConfigError {
    /// The option is the last argument and its value is missing.
    MissingValue(String),
    /// There is no such option.
    UnknownOption(String),
    /// The value of the required disk space is no number.
    RequiredKb(NumberError),
    /// No payload was named.
    FileMissing,
    /// The setting is empty, or holds white space, NUL or a character beyond ASCII.
    InvalidToken(Setting),
    /// The title or one of the versions cannot be a component of a path.
    InvalidPathToken,
    /// The destination leaves the directory it is relative to, or is too long.
    UnsafeDestination,
    /// The destination is the client's own version marker.
    ReservedDestination,
    /// The base URL has another scheme, or is too long.
    InvalidBaseUrl,
    /// The message is too long or holds what the client cannot show.
    InvalidMessage,
    /// More than one source of the signature was named.
    ExclusiveSources,
    /// The update would bring the version that the client has.
    SameVersion,
}

/// The contents of a [`ConfigError`].
pub enum ConfigFault {
    MissingValue(Seq<char>),
    UnknownOption(Seq<char>),
    RequiredKb(NumberError),
    FileMissing,
    InvalidToken(Setting),
    InvalidPathToken,
    UnsafeDestination,
    ReservedDestination,
    InvalidBaseUrl,
    InvalidMessage,
    ExclusiveSources,
    SameVersion,
}

impl View for ConfigError {
    type V = ConfigFault;

    open spec fn view(&self) -> ConfigFault {
        match *self {
            ConfigError::MissingValue(a) => ConfigFault::MissingValue(a@),
            ConfigError::UnknownOption(a) => ConfigFault::UnknownOption(a@),
            ConfigError::RequiredKb(e) => ConfigFault::RequiredKb(e),
            ConfigError::FileMissing => ConfigFault::FileMissing,
            ConfigError::InvalidToken(s) => ConfigFault::InvalidToken(s),
            ConfigError::InvalidPathToken => ConfigFault::InvalidPathToken,
            ConfigError::UnsafeDestination => ConfigFault::UnsafeDestination,
            ConfigError::ReservedDestination => ConfigFault::ReservedDestination,
            ConfigError::InvalidBaseUrl => ConfigFault::InvalidBaseUrl,
            ConfigError::InvalidMessage => ConfigFault::InvalidMessage,
            ConfigError::ExclusiveSources => ConfigFault::ExclusiveSources,
            ConfigError::SameVersion => ConfigFault::SameVersion,
        }
    }
}

impl ConfigFault {
    /// The words in which the fault is reported.
    pub open spec fn words(self) -> Seq<char> {
        match self {
            ConfigFault::MissingValue(a) => "Missing value for "@ + a,
            ConfigFault::UnknownOption(a) => "Unknown option: "@ + a,
            ConfigFault::RequiredKb(e) => e.words(),
            ConfigFault::FileMissing => "--file is required; use --help"@,
            ConfigFault::InvalidToken(s) => "Invalid "@ + s.label()
                + ": must be a nonempty ASCII token"@,
            ConfigFault::InvalidPathToken => "Invalid title/version path token"@,
            ConfigFault::UnsafeDestination =>
                "destination must be a safe relative path, <=400 bytes"@,
            ConfigFault::ReservedDestination =>
                "GAME.VER is reserved for the client's version marker"@,
            ConfigFault::InvalidBaseUrl => "base-url must be http:// and <=800 bytes"@,
            ConfigFault::InvalidMessage =>
                "message must be one line, <=500 bytes, without [, NUL or escaped newline"@,
            ConfigFault::ExclusiveSources =>
                "signature, private-key and diagnostic-unsigned are mutually exclusive"@,
            ConfigFault::SameVersion => "new version must differ from current"@,
        }
    }
}

impl ConfigError {
    /// The words in which the fault is reported.
    pub fn message(&self) -> (r: String)
        ensures
            r@ == self@.words(),
    {
        match self {
            ConfigError::MissingValue(a) => {
                let mut r: String = "Missing value for ".to_owned();
                r.append(a.as_str());
                r
            },
            ConfigError::UnknownOption(a) => {
                let mut r: String = "Unknown option: ".to_owned();
                r.append(a.as_str());
                r
            },
            ConfigError::RequiredKb(e) => e.message(),
            ConfigError::FileMissing => "--file is required; use --help".to_owned(),
            ConfigError::InvalidToken(s) => {
                let mut r: String = "Invalid ".to_owned();
                r.append(s.name());
                r.append(": must be a nonempty ASCII token");
                r
            },
            ConfigError::InvalidPathToken => "Invalid title/version path token".to_owned(),
            ConfigError::UnsafeDestination =>
                "destination must be a safe relative path, <=400 bytes".to_owned(),
            ConfigError::ReservedDestination =>
                "GAME.VER is reserved for the client's version marker".to_owned(),
            ConfigError::InvalidBaseUrl => "base-url must be http:// and <=800 bytes".to_owned(),
            ConfigError::InvalidMessage =>
                "message must be one line, <=500 bytes, without [, NUL or escaped newline".to_owned(),
            ConfigError::ExclusiveSources =>
                "signature, private-key and diagnostic-unsigned are mutually exclusive".to_owned(),
            ConfigError::SameVersion => "new version must differ from current".to_owned(),
        }
    }
}

// ---------------------------------------------------------------------------
// Reading the arguments
// ---------------------------------------------------------------------------

/// What a command line asks for.
#[derive(Debug)]
pub enum Invocation {
    /// Show how the program is used.
    Help,
    /// Run with this configuration.
    Run(Config),
}

/// The contents of an [`Invocation`]: the configuration, unless help was asked for.
pub open spec fn invocation_view(i: Invocation) -> Option<ConfigView> {
    match i {
        Invocation::Help => None,
        Invocation::Run(c) => Some(c@),
    }
}

/// The configuration before any option is read.
pub open spec fn defaults() -> ConfigView {
    ConfigView {
        file: Seq::empty(),
        signature: None,
        private_key: None,
        signature_out: None,
        sign_only: false,
        public_key: None,
        bind: "0.0.0.0:80"@,
        base_url: "http://"@ + HOST@,
        title: "BLUS30072"@,
        current: "1.3"@,
        version: "1.4"@,
        destination: "test.bin"@,
        message: "An update is available. Do you wish to update now?"@,
        diagnostic: false,
        no_update: false,
        required_kb: None,
    }
}

/// Whether the argument asks for help.
pub open spec fn is_help(a: Seq<char>) -> bool {
    a == "--help"@ || a == "-h"@
}

/// The configuration after an option that takes no value; `None` where `a` is no such option.
pub open spec fn with_flag(c: ConfigView, a: Seq<char>) -> Option<ConfigView> {
    if a == "--diagnostic-unsigned"@ {
        Some(ConfigView { diagnostic: true, ..c })
    } else if a == "--no-update"@ {
        Some(ConfigView { no_update: true, ..c })
    } else if a == "--sign-only"@ {
        Some(ConfigView { sign_only: true, ..c })
    } else {
        None
    }
}

/// The configuration after an option and its value.
pub open spec fn with_option(c: ConfigView, a: Seq<char>, v: Seq<char>) -> Result<
    ConfigView,
    ConfigFault,
> {
    if a == "--file"@ {
        Ok(ConfigView { file: v, ..c })
    } else if a == "--signature"@ {
        Ok(ConfigView { signature: Some(v), ..c })
    } else if a == "--private-key"@ {
        Ok(ConfigView { private_key: Some(v), ..c })
    } else if a == "--signature-out"@ {
        Ok(ConfigView { signature_out: Some(v), ..c })
    } else if a == "--public-key"@ {
        Ok(ConfigView { public_key: Some(v), ..c })
    } else if a == "--bind"@ {
        Ok(ConfigView { bind: v, ..c })
    } else if a == "--base-url"@ {
        Ok(ConfigView { base_url: without_trailing(v, '/'), ..c })
    } else if a == "--title"@ {
        Ok(ConfigView { title: v, ..c })
    } else if a == "--current"@ {
        Ok(ConfigView { current: v, ..c })
    } else if a == "--version"@ {
        Ok(ConfigView { version: v, ..c })
    } else if a == "--destination"@ {
        Ok(ConfigView { destination: v, ..c })
    } else if a == "--message"@ {
        Ok(ConfigView { message: v, ..c })
    } else if a == "--required-kb"@ {
        match number(v, u64::MAX as nat) {
            Ok(n) => Ok(ConfigView { required_kb: Some(n as u64), ..c }),
            Err(e) => Err(ConfigFault::RequiredKb(e)),
        }
    } else {
        Err(ConfigFault::UnknownOption(a))
    }
}

/// The configuration after all arguments, read from left to right; `None` where one of them
/// asks for help before any fault.
pub open spec fn read_options(args: Seq<Seq<char>>, c: ConfigView) -> Result<
    Option<ConfigView>,
    ConfigFault,
>
    decreases args.len(),
{
    if args.len() == 0 {
        Ok(Some(c))
    } else if is_help(args[0]) {
        Ok(None)
    } else if with_flag(c, args[0]) is Some {
        read_options(args.skip(1), with_flag(c, args[0])->0)
    } else if args.len() == 1 {
        Err(ConfigFault::MissingValue(args[0]))
    } else {
        match with_option(c, args[0], args[1]) {
            Ok(next) => read_options(args.skip(2), next),
            Err(e) => Err(e),
        }
    }
}

// ---------------------------------------------------------------------------
// The rules
// ---------------------------------------------------------------------------

/// A nonempty string of ASCII characters without white space and NUL.
pub open spec fn is_token(s: Seq<char>) -> bool {
    &&& s.len() > 0
    &&& is_ascii_chars(s)
    &&& forall|i: int| 0 <= i < s.len() ==> !is_ascii_space(#[trigger] s[i]) && s[i] != '\0'
}

/// A string that can be one component of a path: ASCII letters, digits, dots, underscores and
/// hyphens, but neither a single nor a double dot.
pub open spec fn is_path_token(s: Seq<char>) -> bool {
    &&& forall|i: int|
        0 <= i < s.len() ==> is_ascii_alphanumeric(#[trigger] s[i]) || s[i] == '.' || s[i] == '_'
            || s[i] == '-'
    &&& s != "."@
    &&& s != ".."@
}

/// A component that leads neither up nor nowhere.
pub open spec fn is_safe_component(s: Seq<char>) -> bool {
    s != ".."@ && s != "."@ && s.len() > 0
}

/// A relative path that stays below the directory it starts from.
pub open spec fn is_safe_path(s: Seq<char>) -> bool {
    &&& !"/"@.is_prefix_of(s)
    &&& !s.contains('\\')
    &&& forall|i: int|
        0 <= i < pieces(s, '/').len() ==> is_safe_component(#[trigger] pieces(s, '/')[i])
    &&& encode_utf8(s).len() <= MAX_DESTINATION
}

/// A URL that the client can follow.
pub open spec fn is_base_url(s: Seq<char>) -> bool {
    "http://"@.is_prefix_of(s) && encode_utf8(s).len() <= MAX_BASE_URL
}

/// Whether a backslash is followed by the letter n.
pub open spec fn has_escaped_newline(s: Seq<char>) -> bool {
    exists|i: int| 0 <= i < s.len() - 1 && #[trigger] s[i] == '\\' && s[i + 1] == 'n'
}

/// A message that the client shows as one line.
pub open spec fn is_message(s: Seq<char>) -> bool {
    &&& encode_utf8(s).len() <= MAX_MESSAGE
    &&& forall|i: int|
        0 <= i < s.len() ==> #[trigger] s[i] != '\r' && s[i] != '\n' && s[i] != '\0' && s[i] != '['
    &&& !has_escaped_newline(s)
}

/// How many sources of the signature were named.
pub open spec fn sources(c: ConfigView) -> nat {
    (if c.signature is Some { 1nat } else { 0 }) + (if c.private_key is Some { 1nat } else { 0 })
        + (if c.diagnostic { 1nat } else { 0 })
}

/// The first rule that the configuration breaks.
pub open spec fn broken_rule(c: ConfigView) -> Option<ConfigFault> {
    if c.file.len() == 0 {
        Some(ConfigFault::FileMissing)
    } else if !is_token(c.title) {
        Some(ConfigFault::InvalidToken(Setting::Title))
    } else if !is_token(c.current) {
        Some(ConfigFault::InvalidToken(Setting::Current))
    } else if !is_token(c.version) {
        Some(ConfigFault::InvalidToken(Setting::Version))
    } else if !is_token(c.destination) {
        Some(ConfigFault::InvalidToken(Setting::Destination))
    } else if !is_token(c.base_url) {
        Some(ConfigFault::InvalidToken(Setting::BaseUrl))
    } else if !(is_path_token(c.title) && is_path_token(c.current) && is_path_token(c.version)) {
        Some(ConfigFault::InvalidPathToken)
    } else if !is_safe_path(c.destination) {
        Some(ConfigFault::UnsafeDestination)
    } else if c.destination == "GAME.VER"@ {
        Some(ConfigFault::ReservedDestination)
    } else if !is_base_url(c.base_url) {
        Some(ConfigFault::InvalidBaseUrl)
    } else if !is_message(c.message) {
        Some(ConfigFault::InvalidMessage)
    } else if sources(c) > 1 {
        Some(ConfigFault::ExclusiveSources)
    } else if c.version == c.current && !c.no_update {
        Some(ConfigFault::SameVersion)
    } else {
        None
    }
}

/// A configuration that obeys all rules.
pub open spec fn valid(c: ConfigView) -> bool {
    broken_rule(c) is None
}

/// What a command line comes to: an invocation or the first fault.
pub open spec fn parsed(args: Seq<Seq<char>>) -> Result<Option<ConfigView>, ConfigFault> {
    match read_options(args, defaults()) {
        Ok(Some(c)) => match broken_rule(c) {
            Some(e) => Err(e),
            None => Ok(Some(c)),
        },
        other => other,
    }
}

/// The contents of a list of strings.
pub open spec fn texts(v: Seq<String>) -> Seq<Seq<char>> {
    Seq::new(v.len(), |i: int| v[i]@)
}

fn check_token(s: &str) -> (r: bool)
    ensures
        r == is_token(s@),
{
    if !s.is_ascii() {
        return false;
    }
    let chars: Vec<char> = chars_of(s);
    if chars.len() == 0 {
        return false;
    }
    let mut i: usize = 0;
    while i < chars.len()
        invariant
            i <= chars.len(),
            chars@ == s@,
            forall|j: int| 0 <= j < i ==> !is_ascii_space(#[trigger] s@[j]) && s@[j] != '\0',
        decreases chars.len() - i,
    {
        if ascii_space(chars[i]) || chars[i] == '\0' {
            return false;
        }
        i = i + 1;
    }
    true
}

fn check_path_token(s: &str) -> (r: bool)
    ensures
        r == is_path_token(s@),
{
    let chars: Vec<char> = chars_of(s);
    let mut i: usize = 0;
    while i < chars.len()
        invariant
            i <= chars.len(),
            chars@ == s@,
            forall|j: int|
                0 <= j < i ==> is_ascii_alphanumeric(#[trigger] s@[j]) || s@[j] == '.' || s@[j]
                    == '_' || s@[j] == '-',
        decreases chars.len() - i,
    {
        let c: char = chars[i];
        if !(ascii_alphanumeric(c) || c == '.' || c == '_' || c == '-') {
            return false;
        }
        i = i + 1;
    }
    !same_text(s, ".") && !same_text(s, "..")
}

fn check_safe_path(s: &str) -> (r: bool)
    ensures
        r == is_safe_path(s@),
{
    let chars: Vec<char> = chars_of(s);
    if begins_with(chars.as_slice(), "/") || has_char(chars.as_slice(), '\\') {
        return false;
    }
    let parts: Vec<Vec<char>> = split_pieces(chars.as_slice(), '/');
    let mut i: usize = 0;
    while i < parts.len()
        invariant
            i <= parts.len(),
            views(parts@) == pieces(s@, '/'),
            forall|j: int| 0 <= j < i ==> is_safe_component(#[trigger] pieces(s@, '/')[j]),
        decreases parts.len() - i,
    {
        let part: &[char] = parts[i].as_slice();
        assert(part@ == pieces(s@, '/')[i as int]);
        if spells(part, "..") || spells(part, ".") || part.len() == 0 {
            return false;
        }
        i = i + 1;
    }
    s.as_bytes().len() <= MAX_DESTINATION
}

fn check_base_url(s: &str) -> (r: bool)
    ensures
        r == is_base_url(s@),
{
    let chars: Vec<char> = chars_of(s);
    begins_with(chars.as_slice(), "http://") && s.as_bytes().len() <= MAX_BASE_URL
}

fn check_message(s: &str) -> (r: bool)
    ensures
        r == is_message(s@),
{
    if s.as_bytes().len() > MAX_MESSAGE {
        return false;
    }
    let chars: Vec<char> = chars_of(s);
    let mut i: usize = 0;
    while i < chars.len()
        invariant
            i <= chars.len(),
            chars@ == s@,
            forall|j: int|
                0 <= j < i ==> #[trigger] s@[j] != '\r' && s@[j] != '\n' && s@[j] != '\0' && s@[j]
                    != '[',
            forall|j: int|
                0 <= j < i && j < s@.len() - 1 ==> !(#[trigger] s@[j] == '\\' && s@[j + 1] == 'n'),
        decreases chars.len() - i,
    {
        let c: char = chars[i];
        if c == '\r' || c == '\n' || c == '\0' || c == '[' {
            return false;
        }
        if i < chars.len() - 1 && c == '\\' && chars[i + 1] == 'n' {
            assert(s@[i as int] == '\\' && s@[i + 1] == 'n');
            return false;
        }
        i = i + 1;
    }
    true
}

impl Config {
    /// The configuration before any option is read.
    pub fn new() -> (r: Config)
        ensures
            r@ == defaults(),
    {
        let mut base_url: String = "http://".to_owned();
        base_url.append(HOST);
        Config {
            file: String::new(),
            signature: None,
            private_key: None,
            signature_out: None,
            sign_only: false,
            public_key: None,
            bind: "0.0.0.0:80".to_owned(),
            base_url,
            title: "BLUS30072".to_owned(),
            current: "1.3".to_owned(),
            version: "1.4".to_owned(),
            destination: "test.bin".to_owned(),
            message: "An update is available. Do you wish to update now?".to_owned(),
            diagnostic: false,
            no_update: false,
            required_kb: None,
        }
    }

    fn set_flag(&mut self, a: &str) -> (r: bool)
        ensures
            r == (with_flag(old(self)@, a@) is Some),
            final(self)@ == (if r { with_flag(old(self)@, a@)->0 } else { old(self)@ }),
    {
        if same_text(a, "--diagnostic-unsigned") {
            self.diagnostic = true;
        } else if same_text(a, "--no-update") {
            self.no_update = true;
        } else if same_text(a, "--sign-only") {
            self.sign_only = true;
        } else {
            return false;
        }
        true
    }

    fn set_option(&mut self, a: &String, v: &String) -> (r: Result<(), ConfigError>)
        ensures
            match r {
                Ok(_) => with_option(old(self)@, a@, v@) == Ok::<ConfigView, ConfigFault>(
                    final(self)@,
                ),
                Err(e) => with_option(old(self)@, a@, v@) == Err::<ConfigView, ConfigFault>(e@),
            },
    {
        let name: &str = a.as_str();
        if same_text(name, "--file") {
            self.file = v.clone();
        } else if same_text(name, "--signature") {
            self.signature = Some(v.clone());
        } else if same_text(name, "--private-key") {
            self.private_key = Some(v.clone());
        } else if same_text(name, "--signature-out") {
            self.signature_out = Some(v.clone());
        } else if same_text(name, "--public-key") {
            self.public_key = Some(v.clone());
        } else if same_text(name, "--bind") {
            self.bind = v.clone();
        } else if same_text(name, "--base-url") {
            let chars: Vec<char> = chars_of(v.as_str());
            self.base_url = text_of(trim_trailing(chars.as_slice(), '/'));
        } else if same_text(name, "--title") {
            self.title = v.clone();
        } else if same_text(name, "--current") {
            self.current = v.clone();
        } else if same_text(name, "--version") {
            self.version = v.clone();
        } else if same_text(name, "--destination") {
            self.destination = v.clone();
        } else if same_text(name, "--message") {
            self.message = v.clone();
        } else if same_text(name, "--required-kb") {
            let chars: Vec<char> = chars_of(v.as_str());
            match parse_number(chars.as_slice(), u64::MAX) {
                Ok(n) => {
                    self.required_kb = Some(n);
                },
                Err(e) => {
                    return Err(ConfigError::RequiredKb(e));
                },
            }
        } else {
            return Err(ConfigError::UnknownOption(a.clone()));
        }
        Ok(())
    }

    /// Checks the configuration against all rules, in their order.
    pub fn check(&self) -> (r: Result<(), ConfigError>)
        ensures
            match r {
                Ok(_) => valid(self@),
                Err(e) => broken_rule(self@) == Some(e@),
            },
    {
        if self.file.as_str().is_empty() {
            return Err(ConfigError::FileMissing);
        }
        if !check_token(self.title.as_str()) {
            return Err(ConfigError::InvalidToken(Setting::Title));
        }
        if !check_token(self.current.as_str()) {
            return Err(ConfigError::InvalidToken(Setting::Current));
        }
        if !check_token(self.version.as_str()) {
            return Err(ConfigError::InvalidToken(Setting::Version));
        }
        if !check_token(self.destination.as_str()) {
            return Err(ConfigError::InvalidToken(Setting::Destination));
        }
        if !check_token(self.base_url.as_str()) {
            return Err(ConfigError::InvalidToken(Setting::BaseUrl));
        }
        if !check_path_token(self.title.as_str()) || !check_path_token(self.current.as_str())
            || !check_path_token(self.version.as_str()) {
            return Err(ConfigError::InvalidPathToken);
        }
        if !check_safe_path(self.destination.as_str()) {
            return Err(ConfigError::UnsafeDestination);
        }
        if same_text(self.destination.as_str(), "GAME.VER") {
            return Err(ConfigError::ReservedDestination);
        }
        if !check_base_url(self.base_url.as_str()) {
            return Err(ConfigError::InvalidBaseUrl);
        }
        if !check_message(self.message.as_str()) {
            return Err(ConfigError::InvalidMessage);
        }
        if (self.signature.is_some() && self.private_key.is_some()) || (self.signature.is_some()
            && self.diagnostic) || (self.private_key.is_some() && self.diagnostic) {
            return Err(ConfigError::ExclusiveSources);
        }
        if same_text(self.version.as_str(), self.current.as_str()) && !self.no_update {
            return Err(ConfigError::SameVersion);
        }
        Ok(())
    }

    /// Reads the arguments of the command line, the program's name left out.
    pub fn parse(args: &Vec<String>) -> (r: Result<Invocation, ConfigError>)
        ensures
            match r {
                Ok(i) => parsed(texts(args@)) == Ok::<Option<ConfigView>, ConfigFault>(
                    invocation_view(i),
                ),
                Err(e) => parsed(texts(args@)) == Err::<Option<ConfigView>, ConfigFault>(e@),
            },
    {
        let mut c: Config = Config::new();
        let mut i: usize = 0;
        let ghost all = texts(args@);
        assert(all.skip(0) =~= all);
        while i < args.len()
            invariant
                i <= args.len(),
                all == texts(args@),
                read_options(all, defaults()) == read_options(all.skip(i as int), c@),
            decreases args.len() - i,
        {
            let a: &String = &args[i];
            let ghost rest = all.skip(i as int);
            assert(rest[0] == a@);
            if same_text(a.as_str(), "--help") || same_text(a.as_str(), "-h") {
                return Ok(Invocation::Help);
            }
            if c.set_flag(a.as_str()) {
                assert(rest.skip(1) =~= all.skip(i + 1));
                i = i + 1;
            } else {
                if i + 1 == args.len() {
                    return Err(ConfigError::MissingValue(a.clone()));
                }
                let v: &String = &args[i + 1];
                assert(rest[1] == v@);
                match c.set_option(a, v) {
                    Ok(_) => {},
                    Err(e) => {
                        return Err(e);
                    },
                }
                assert(rest.skip(2) =~= all.skip(i + 2));
                i = i + 2;
            }
        }
        assert(all.skip(i as int) =~= Seq::empty());
        match c.check() {
            Ok(_) => Ok(Invocation::Run(c)),
            Err(e) => Err(e),
        }
    }
}

// ---------------------------------------------------------------------------
// Help
// ---------------------------------------------------------------------------

/// How the program is used.
pub open spec fn usage_text() -> Seq<char> {
    USAGE_HEAD@ + HOST@ + USAGE_TAIL@
}

/// The usage up to the default host.
pub const USAGE_HEAD: &'static str =
    "COD4 patcher HTTP server\n\n--file PATH (required)\n--signature PATH  Base64 RSA-PSS/Tiger signature with ORIGINAL key, zero salt\n--private-key PATH  PKCS#1 PEM; auto-sign for the matching RPCS3 key patch\n--public-key PATH  Optional PKCS#1 DER validation key\n--signature-out PATH  Save generated/validated Base64 signature\n--sign-only  Sign/verify and exit without TCP (requires signature-out)\n--diagnostic-unsigned  Intentionally invalid signature; client will reject\n--no-update  Return 404 for manifest; still serve selected file\n--bind ADDR  [0.0.0.0:80]\n--base-url URL  [http://";

/// The usage after the default host.
pub const USAGE_TAIL: &'static str =
    "]\n--title ID [BLUS30072]\n--current VERSION [1.3]  Existing client GAME.VER; absent file means 1.0\n--version VERSION [1.4]\n--destination RELATIVE_PATH [test.bin]\n--message TEXT\n--required-kb INTEGER  Override estimated temporary + destination disk space\n\nWithout a signature, only transport/no-update mode is available.";

/// How the program is used.
pub fn usage() -> (r: String)
    ensures
        r@ == usage_text(),
{
    let mut r: String = USAGE_HEAD.to_owned();
    r.append(HOST);
    r.append(USAGE_TAIL);
    r
}

// ---------------------------------------------------------------------------
// Laws
// ---------------------------------------------------------------------------

/// Every configuration that a command line leads to obeys all rules.
pub proof fn law_accepted_is_valid(args: Seq<Seq<char>>)
    ensures
        parsed(args) matches Ok(Some(c)) ==> valid(c),
{
}

/// An option that is given twice has the value that was given last.
pub proof fn law_last_value_wins(c: ConfigView, a: Seq<char>, v: Seq<char>, w: Seq<char>)
    requires
        with_option(c, a, v) is Ok,
    ensures
        with_option(with_option(c, a, v)->Ok_0, a, w) == with_option(c, a, w),
{
}

/// Two different options can be given in either order.
pub proof fn law_options_commute(
    c: ConfigView,
    a: Seq<char>,
    v: Seq<char>,
    b: Seq<char>,
    w: Seq<char>,
)
    requires
        a != b,
        with_option(c, a, v) is Ok,
        with_option(c, b, w) is Ok,
    ensures
        with_option(with_option(c, a, v)->Ok_0, b, w) == with_option(
            with_option(c, b, w)->Ok_0,
            a,
            v,
        ),
{
}

/// Help is shown however the command line goes on, as long as nothing before it is at fault.
pub proof fn law_help_wins(before: Seq<Seq<char>>, help: Seq<char>, after: Seq<Seq<char>>)
    requires
        is_help(help),
        read_options(before, defaults()) matches Ok(Some(_)),
    ensures
        parsed(before.push(help) + after) == Ok::<Option<ConfigView>, ConfigFault>(None),
{
    lemma_help_wins(before, help, after, defaults());
}

proof fn lemma_help_wins(
    before: Seq<Seq<char>>,
    help: Seq<char>,
    after: Seq<Seq<char>>,
    c: ConfigView,
)
    requires
        is_help(help),
        read_options(before, c) matches Ok(Some(_)),
    ensures
        read_options(before.push(help) + after, c) == Ok::<Option<ConfigView>, ConfigFault>(None),
    decreases before.len(),
{
    let all = before.push(help) + after;
    if before.len() == 0 {
        assert(all[0] == help);
    } else {
        assert(all[0] == before[0]);
        if with_flag(c, before[0]) is Some {
            assert(all.skip(1) =~= before.skip(1).push(help) + after);
            lemma_help_wins(before.skip(1), help, after, with_flag(c, before[0])->0);
        } else {
            assert(all[1] == before[1]);
            assert(all.skip(2) =~= before.skip(2).push(help) + after);
            lemma_help_wins(before.skip(2), help, after, with_option(c, before[0], before[1])->Ok_0);
        }
    }
}

/// An option with a plain value puts that value in its place and leaves everything else alone.
#[verifier::rlimit(40)]
pub proof fn law_option_sets_its_value_and_nothing_else(c: ConfigView, v: Seq<char>)
    ensures
        with_option(c, "--file"@, v) == Ok::<ConfigView, ConfigFault>(
            (ConfigView { file: v, ..c }),
        ),
        with_option(c, "--signature"@, v) == Ok::<ConfigView, ConfigFault>(
            (ConfigView { signature: Some(v), ..c }),
        ),
        with_option(c, "--private-key"@, v) == Ok::<ConfigView, ConfigFault>(
            (ConfigView { private_key: Some(v), ..c }),
        ),
        with_option(c, "--signature-out"@, v) == Ok::<ConfigView, ConfigFault>(
            (ConfigView { signature_out: Some(v), ..c }),
        ),
        with_option(c, "--public-key"@, v) == Ok::<ConfigView, ConfigFault>(
            (ConfigView { public_key: Some(v), ..c }),
        ),
        with_option(c, "--bind"@, v) == Ok::<ConfigView, ConfigFault>(
            (ConfigView { bind: v, ..c }),
        ),
        with_option(c, "--title"@, v) == Ok::<ConfigView, ConfigFault>(
            (ConfigView { title: v, ..c }),
        ),
        with_option(c, "--current"@, v) == Ok::<ConfigView, ConfigFault>(
            (ConfigView { current: v, ..c }),
        ),
        with_option(c, "--version"@, v) == Ok::<ConfigView, ConfigFault>(
            (ConfigView { version: v, ..c }),
        ),
        with_option(c, "--destination"@, v) == Ok::<ConfigView, ConfigFault>(
            (ConfigView { destination: v, ..c }),
        ),
        with_option(c, "--message"@, v) == Ok::<ConfigView, ConfigFault>(
            (ConfigView { message: v, ..c }),
        ),
{
    lemma_option_names();
}

/// The base URL is the value up to a run of slashes at its end: after it only slashes stand, it
/// does not end in one itself, and nothing else changes.
pub proof fn law_base_url_loses_only_trailing_slashes(c: ConfigView, v: Seq<char>)
    ensures
        with_option(c, "--base-url"@, v) matches Ok(d) && {
            &&& d.base_url.len() <= v.len()
            &&& d.base_url == v.take(d.base_url.len() as int)
            &&& forall|i: int| d.base_url.len() <= i < v.len() ==> #[trigger] v[i] == '/'
            &&& d.base_url.len() > 0 ==> d.base_url.last() != '/'
            &&& d == (ConfigView { base_url: d.base_url, ..c })
        },
        v.len() > 0 && v.last() != '/' ==> with_option(c, "--base-url"@, v) == Ok::<
            ConfigView,
            ConfigFault,
        >((ConfigView { base_url: v, ..c })),
{
    lemma_option_names();
    law_only_the_trailing_run_goes(v, '/');
    if v.len() > 0 && v.last() != '/' {
        let d = with_option(c, "--base-url"@, v)->Ok_0;
        assert(d.base_url =~= v);
    }
}

/// The disk space is the number that the value spells, whatever number of digits it has, and
/// nothing else changes. A value that spells none is refused for the reason why it does not.
pub proof fn law_disk_space_is_the_number_given(c: ConfigView, v: Seq<char>, n: u64)
    ensures
        with_option(c, "--required-kb"@, decimal(n as nat)) == Ok::<ConfigView, ConfigFault>(
            (ConfigView { required_kb: Some(n), ..c }),
        ),
        match number(v, 0xffff_ffff_ffff_ffff) {
            Ok(k) => with_option(c, "--required-kb"@, v) matches Ok(d) && d == (ConfigView {
                required_kb: d.required_kb,
                ..c
            }) && (d.required_kb matches Some(m) && m == k),
            Err(e) => with_option(c, "--required-kb"@, v) == Err::<ConfigView, ConfigFault>(
                ConfigFault::RequiredKb(e),
            ),
        },
{
    lemma_option_names();
    law_decimal_reads_back(n as nat, u64::MAX as nat);
    lemma_number_within(v, u64::MAX as nat);
}

proof fn lemma_number_within(v: Seq<char>, max: nat)
    ensures
        number(v, max) matches Ok(n) ==> n <= max,
{
    assert(digits_value(v, max) matches Ok(n) ==> n <= max);
    assert(digits_value(v.drop_first(), max) matches Ok(n) ==> n <= max);
}

/// Every other option that takes a value is unknown, and is named in the fault.
pub proof fn law_other_options_are_unknown(c: ConfigView, a: Seq<char>, v: Seq<char>)
    ensures
        (a != "--file"@ && a != "--signature"@ && a != "--private-key"@ && a != "--signature-out"@
            && a != "--public-key"@ && a != "--bind"@ && a != "--base-url"@ && a != "--title"@ && a
            != "--current"@ && a != "--version"@ && a != "--destination"@ && a != "--message"@ && a
            != "--required-kb"@) <==> with_option(c, a, v) == Err::<ConfigView, ConfigFault>(
            ConfigFault::UnknownOption(a),
        ),
{
}

/// The options without a value, and no others, turn one setting on and leave everything else
/// alone.
pub proof fn law_flags(c: ConfigView, a: Seq<char>)
    ensures
        with_flag(c, "--diagnostic-unsigned"@) == Some((ConfigView { diagnostic: true, ..c })),
        with_flag(c, "--no-update"@) == Some((ConfigView { no_update: true, ..c })),
        with_flag(c, "--sign-only"@) == Some((ConfigView { sign_only: true, ..c })),
        with_flag(c, a) is Some <==> (a == "--diagnostic-unsigned"@ || a == "--no-update"@ || a
            == "--sign-only"@),
        is_help("--help"@),
        is_help("-h"@),
        is_help(a) ==> a == "--help"@ || a == "-h"@,
        is_help(a) ==> with_flag(c, a) is None,
{
    reveal_strlit("--diagnostic-unsigned");
    reveal_strlit("--no-update");
    reveal_strlit("--sign-only");
    reveal_strlit("--help");
    reveal_strlit("-h");
    assert("--diagnostic-unsigned"@.len() == 21);
    assert("--no-update"@.len() == 11);
    assert("--sign-only"@.len() == 11);
    assert("--no-update"@[2] != "--sign-only"@[2]);
    assert("--help"@.len() == 6);
    assert("-h"@.len() == 2);
}

proof fn lemma_option_names()
    ensures
        "--file"@.len() == 6,
        "--signature"@.len() == 11,
        "--private-key"@.len() == 13,
        "--signature-out"@.len() == 15,
        "--public-key"@.len() == 12,
        "--bind"@.len() == 6,
        "--base-url"@.len() == 10,
        "--title"@.len() == 7,
        "--current"@.len() == 9,
        "--version"@.len() == 9,
        "--destination"@.len() == 13,
        "--message"@.len() == 9,
        "--required-kb"@.len() == 13,
        "--file"@[2] == 'f',
        "--bind"@[2] == 'b',
        "--current"@[2] == 'c',
        "--version"@[2] == 'v',
        "--message"@[2] == 'm',
        "--private-key"@[2] == 'p',
        "--destination"@[2] == 'd',
        "--required-kb"@[2] == 'r',
{
    reveal_strlit("--file");
    reveal_strlit("--signature");
    reveal_strlit("--private-key");
    reveal_strlit("--signature-out");
    reveal_strlit("--public-key");
    reveal_strlit("--bind");
    reveal_strlit("--base-url");
    reveal_strlit("--title");
    reveal_strlit("--current");
    reveal_strlit("--version");
    reveal_strlit("--destination");
    reveal_strlit("--message");
    reveal_strlit("--required-kb");
}

/// The arguments are read in their order: those that come first lead to a configuration, to
/// help or to a fault, and only a configuration is handed on to those that follow.
pub proof fn law_arguments_are_read_in_order(
    before: Seq<Seq<char>>,
    after: Seq<Seq<char>>,
    c: ConfigView,
)
    ensures
        match read_options(before, c) {
            Ok(Some(d)) => read_options(before + after, c) == read_options(after, d),
            Ok(None) => read_options(before + after, c) == Ok::<Option<ConfigView>, ConfigFault>(
                None,
            ),
            Err(ConfigFault::MissingValue(_)) => true,
            Err(e) => read_options(before + after, c) == Err::<Option<ConfigView>, ConfigFault>(e),
        },
    decreases before.len(),
{
    let all = before + after;
    if before.len() == 0 {
        assert(all =~= after);
    } else {
        assert(all[0] == before[0]);
        if is_help(before[0]) {
        } else if with_flag(c, before[0]) is Some {
            assert(all.skip(1) =~= before.skip(1) + after);
            law_arguments_are_read_in_order(before.skip(1), after, with_flag(c, before[0])->0);
        } else if before.len() > 1 {
            assert(all[1] == before[1]);
            assert(all.skip(2) =~= before.skip(2) + after);
            match with_option(c, before[0], before[1]) {
                Ok(d) => {
                    law_arguments_are_read_in_order(before.skip(2), after, d);
                },
                Err(e) => {
                    lemma_option_fault(c, before[0], before[1]);
                },
            }
        }
    }
}

proof fn lemma_option_fault(c: ConfigView, a: Seq<char>, v: Seq<char>)
    ensures
        !(with_option(c, a, v) matches Err(ConfigFault::MissingValue(_))),
{
}

/// One argument, or an option and its value: no argument changes nothing, help asks for help, a
/// flag is set, an option takes the argument after it for its value, and the value is missing
/// where there is none.
pub proof fn law_one_argument(c: ConfigView, a: Seq<char>, v: Seq<char>)
    ensures
        read_options(Seq::empty(), c) == Ok::<Option<ConfigView>, ConfigFault>(Some(c)),
        a == "--help"@ || a == "-h"@ ==> read_options(seq![a], c) == Ok::<
            Option<ConfigView>,
            ConfigFault,
        >(None),
        a != "--help"@ && a != "-h"@ ==> match with_flag(c, a) {
            Some(d) => read_options(seq![a], c) == Ok::<Option<ConfigView>, ConfigFault>(Some(d)),
            None => {
                &&& read_options(seq![a], c) == Err::<Option<ConfigView>, ConfigFault>(
                    ConfigFault::MissingValue(a),
                )
                &&& match with_option(c, a, v) {
                    Ok(d) => read_options(seq![a, v], c) == Ok::<Option<ConfigView>, ConfigFault>(
                        Some(d),
                    ),
                    Err(e) => read_options(seq![a, v], c) == Err::<Option<ConfigView>, ConfigFault>(
                        e,
                    ),
                }
            },
        },
{
    let none: Seq<Seq<char>> = Seq::empty();
    assert(seq![a].skip(1) =~= none);
    assert(seq![a, v].skip(2) =~= none);
    assert forall|d: ConfigView| #[trigger] read_options(none, d) == Ok::<
        Option<ConfigView>,
        ConfigFault,
    >(Some(d)) by {}
    if !is_help(a) {
        assert(seq![a][0] == a);
        assert(seq![a, v][0] == a && seq![a, v][1] == v);
        if with_flag(c, a) is Some {
            let d = with_flag(c, a)->0;
            assert(read_options(seq![a], c) == read_options(none, d));
        } else if with_option(c, a, v) is Ok {
            let d = with_option(c, a, v)->Ok_0;
            assert(read_options(seq![a, v], c) == read_options(none, d));
        }
    }
}

/// The rules are checked once all arguments are read, and decide on nothing else: what was read
/// is what is run, unless it breaks a rule, and then the fault is that rule.
pub proof fn law_rules_are_checked_last(args: Seq<Seq<char>>)
    ensures
        match read_options(args, defaults()) {
            Ok(Some(c)) => if valid(c) {
                parsed(args) == Ok::<Option<ConfigView>, ConfigFault>(Some(c))
            } else {
                parsed(args) matches Err(e) && broken_rule(c) == Some(e)
            },
            Ok(None) => parsed(args) == Ok::<Option<ConfigView>, ConfigFault>(None),
            Err(e) => parsed(args) == Err::<Option<ConfigView>, ConfigFault>(e),
        },
{
}

/// What is said of each setting where nothing is said of it.
pub proof fn law_defaults_can_be_run(file: Seq<char>)
    requires
        file.len() > 0,
    ensures
        parsed(seq!["--file"@, file]) matches Ok(Some(c)) && c == (ConfigView {
            file,
            ..defaults()
        }),
        defaults().title == "BLUS30072"@,
        defaults().current == "1.3"@,
        defaults().version == "1.4"@,
        defaults().destination == "test.bin"@,
        defaults().bind == "0.0.0.0:80"@,
        defaults().base_url == "http://cod4mw-ps3update.charlieoscardelta.com"@,
        defaults().message == "An update is available. Do you wish to update now?"@,
        defaults().signature is None && defaults().private_key is None && defaults().signature_out is None
            && defaults().public_key is None && defaults().required_kb is None,
        !defaults().sign_only && !defaults().diagnostic && !defaults().no_update,
{
    let c = ConfigView { file, ..defaults() };
    lemma_option_names();
    law_flags(defaults(), "--file"@);
    reveal_strlit("--file");
    reveal_strlit("--help");
    reveal_strlit("-h");
    reveal_strlit("--diagnostic-unsigned");
    reveal_strlit("--no-update");
    reveal_strlit("--sign-only");
    assert("--file"@[2] != "--help"@[2]);
    law_one_argument(defaults(), "--file"@, file);
    reveal_strlit("http://");
    reveal_strlit("cod4mw-ps3update.charlieoscardelta.com");
    reveal_strlit("http://cod4mw-ps3update.charlieoscardelta.com");
    assert(c.base_url =~= "http://cod4mw-ps3update.charlieoscardelta.com"@);
    lemma_defaults_valid(c);
}

#[verifier::rlimit(40)]
proof fn lemma_defaults_valid(c: ConfigView)
    requires
        c.file.len() > 0,
        c.title == "BLUS30072"@,
        c.current == "1.3"@,
        c.version == "1.4"@,
        c.destination == "test.bin"@,
        c.base_url == "http://cod4mw-ps3update.charlieoscardelta.com"@,
        c.message == "An update is available. Do you wish to update now?"@,
        c.signature is None,
        c.private_key is None,
        !c.diagnostic,
    ensures
        valid(c),
{
    reveal_strlit("BLUS30072");
    reveal_strlit("1.3");
    reveal_strlit("1.4");
    reveal_strlit("test.bin");
    reveal_strlit("http://");
    reveal_strlit("http://cod4mw-ps3update.charlieoscardelta.com");
    reveal_strlit("An update is available. Do you wish to update now?");
    reveal_strlit(".");
    reveal_strlit("..");
    reveal_strlit("/");
    reveal_strlit("GAME.VER");
    assert("1.3"@[2] != "1.4"@[2]);
    assert("test.bin"@[0] != "GAME.VER"@[0]);
    assert("http://"@.is_prefix_of(c.base_url));
    is_ascii_chars_encode_utf8(c.destination);
    is_ascii_chars_encode_utf8(c.base_url);
    is_ascii_chars_encode_utf8(c.message);
    law_pieces_are_what_is_between(c.destination, '/');
    assert(!c.destination.contains('/'));
    lemma_whole_piece(c.destination, '/');
    assert(pieces(c.destination, '/')[0] == c.destination);
    assert(!"/"@.is_prefix_of(c.destination)) by {
        assert("/"@[0] != c.destination[0]);
    }
}

proof fn lemma_whole_piece(s: Seq<char>, sep: char)
    requires
        !s.contains(sep),
    ensures
        pieces(s, sep) == seq![s],
    decreases s.len(),
{
    if s.len() > 0 {
        assert(s.contains(s[s.len() - 1]));
        assert forall|k: int| 0 <= k < s.drop_last().len() implies s.drop_last()[k] != sep by {
            assert(s.contains(s[k]));
        }
        lemma_whole_piece(s.drop_last(), sep);
        assert(s.drop_last().push(s.last()) =~= s);
        assert(seq![s.drop_last()].drop_last().push(s) =~= seq![s]);
    }
}

/// The rules, over the characters of the settings, and which of them is reported: the first in
/// their order that is broken.
#[verifier::rlimit(40)]
pub proof fn law_rules(c: ConfigView)
    ensures
        ({
            let token = |s: Seq<char>|
                s.len() > 0 && forall|i: int|
                    0 <= i < s.len() ==> {
                        let u = #[trigger] s[i] as u32;
                        0 < u < 128 && u != 9 && u != 10 && u != 12 && u != 13 && u != 32
                    };
            let path = |s: Seq<char>|
                s != seq!['.'] && s != seq!['.', '.'] && forall|i: int|
                    0 <= i < s.len() ==> {
                        let u = #[trigger] s[i] as u32;
                        48 <= u <= 57 || 65 <= u <= 90 || 97 <= u <= 122 || u == 45 || u == 46 || u
                            == 95
                    };
            let parts = pieces(c.destination, '/');
            let file = c.file.len() > 0;
            let title = token(c.title);
            let current = token(c.current);
            let version = token(c.version);
            let place = token(c.destination);
            let url = token(c.base_url);
            let tokens = file && title && current && version && place && url;
            let paths = path(c.title) && path(c.current) && path(c.version);
            let safe = c.destination.len() <= 400 && !c.destination.contains('\\') && forall|i: int|
                0 <= i < parts.len() ==> #[trigger] parts[i] != seq!['.'] && parts[i] != seq![
                    '.',
                    '.',
                ] && parts[i].len() > 0;
            let free = c.destination != "GAME.VER"@;
            let http = c.base_url.len() <= 800 && c.base_url.len() >= 7 && c.base_url.take(7)
                == "http://"@;
            let shown = encode_utf8(c.message).len() <= 500 && !c.message.contains('\r')
                && !c.message.contains('\n') && !c.message.contains('\0') && !c.message.contains('[')
                && forall|i: int|
                0 <= i < c.message.len() - 1 ==> !(#[trigger] c.message[i] == '\\' && c.message[i + 1]
                    == 'n');
            let single = !(c.signature is Some && c.private_key is Some) && !(c.signature is Some
                && c.diagnostic) && !(c.private_key is Some && c.diagnostic);
            let new = c.no_update || c.version != c.current;
            &&& valid(c) <==> tokens && paths && safe && free && http && shown && single && new
            &&& broken_rule(c) == Some(ConfigFault::FileMissing) <==> !file
            &&& broken_rule(c) == Some(ConfigFault::InvalidToken(Setting::Title)) <==> file
                && !title
            &&& broken_rule(c) == Some(ConfigFault::InvalidToken(Setting::Current)) <==> file
                && title && !current
            &&& broken_rule(c) == Some(ConfigFault::InvalidToken(Setting::Version)) <==> file
                && title && current && !version
            &&& broken_rule(c) == Some(ConfigFault::InvalidToken(Setting::Destination)) <==> file
                && title && current && version && !place
            &&& broken_rule(c) == Some(ConfigFault::InvalidToken(Setting::BaseUrl)) <==> file
                && title && current && version && place && !url
            &&& broken_rule(c) == Some(ConfigFault::InvalidPathToken) <==> tokens && !paths
            &&& broken_rule(c) == Some(ConfigFault::UnsafeDestination) <==> tokens && paths && !safe
            &&& broken_rule(c) == Some(ConfigFault::ReservedDestination) <==> tokens && paths
                && safe && !free
            &&& broken_rule(c) == Some(ConfigFault::InvalidBaseUrl) <==> tokens && paths && safe
                && free && !http
            &&& broken_rule(c) == Some(ConfigFault::InvalidMessage) <==> tokens && paths && safe
                && free && http && !shown
            &&& broken_rule(c) == Some(ConfigFault::ExclusiveSources) <==> tokens && paths && safe
                && free && http && shown && !single
            &&& broken_rule(c) == Some(ConfigFault::SameVersion) <==> tokens && paths && safe && free
                && http && shown && single && !new
        }),
{
    reveal_strlit(".");
    reveal_strlit("..");
    reveal_strlit("/");
    reveal_strlit("http://");
    assert("."@ =~= seq!['.']);
    assert(".."@ =~= seq!['.', '.']);
    lemma_token_codes(c.title);
    lemma_token_codes(c.current);
    lemma_token_codes(c.version);
    lemma_token_codes(c.destination);
    lemma_token_codes(c.base_url);
    lemma_path_token_codes(c.title);
    lemma_path_token_codes(c.current);
    lemma_path_token_codes(c.version);
    if is_token(c.destination) {
        is_ascii_chars_encode_utf8(c.destination);
        lemma_absolute_path_has_empty_piece(c.destination);
    }
    if is_token(c.base_url) {
        is_ascii_chars_encode_utf8(c.base_url);
    }
    if c.base_url.len() >= 7 {
        assert(c.base_url.take(7) =~= c.base_url.subrange(0, 7));
        assert(c.base_url.take(7) == "http://"@ ==> "http://"@.is_prefix_of(c.base_url));
        if "http://"@.is_prefix_of(c.base_url) {
            assert(c.base_url.take(7) =~= "http://"@);
        }
    }
    lemma_message_codes(c.message);
}

proof fn lemma_token_codes(s: Seq<char>)
    ensures
        is_token(s) <==> (s.len() > 0 && forall|i: int|
            0 <= i < s.len() ==> {
                let u = #[trigger] s[i] as u32;
                0 < u < 128 && u != 9 && u != 10 && u != 12 && u != 13 && u != 32
            }),
{
    assert forall|i: int| 0 <= i < s.len() implies (('\0' <= #[trigger] s[i] <= '\u{7f}'
        && !is_ascii_space(s[i]) && s[i] != '\0') <==> {
        let u = s[i] as u32;
        0 < u < 128 && u != 9 && u != 10 && u != 12 && u != 13 && u != 32
    }) by {
        char_u32_cast(s[i], s[i] as u32);
    }
    if is_token(s) {
        assert forall|i: int| 0 <= i < s.len() implies {
            let u = #[trigger] s[i] as u32;
            0 < u < 128 && u != 9 && u != 10 && u != 12 && u != 13 && u != 32
        } by {
            assert(!is_ascii_space(s[i]));
        }
    }
}

proof fn lemma_path_token_codes(s: Seq<char>)
    ensures
        is_path_token(s) <==> (s != seq!['.'] && s != seq!['.', '.'] && forall|i: int|
            0 <= i < s.len() ==> {
                let u = #[trigger] s[i] as u32;
                48 <= u <= 57 || 65 <= u <= 90 || 97 <= u <= 122 || u == 45 || u == 46 || u == 95
            }),
{
    reveal_strlit(".");
    reveal_strlit("..");
    assert("."@ =~= seq!['.']);
    assert(".."@ =~= seq!['.', '.']);
    assert forall|i: int| 0 <= i < s.len() implies ((is_ascii_alphanumeric(#[trigger] s[i]) || s[i]
        == '.' || s[i] == '_' || s[i] == '-') <==> {
        let u = s[i] as u32;
        48 <= u <= 57 || 65 <= u <= 90 || 97 <= u <= 122 || u == 45 || u == 46 || u == 95
    }) by {
        char_u32_cast(s[i], s[i] as u32);
    }
}

proof fn lemma_absolute_path_has_empty_piece(s: Seq<char>)
    ensures
        "/"@.is_prefix_of(s) ==> pieces(s, '/').len() > 0 && pieces(s, '/')[0].len() == 0,
    decreases s.len(),
{
    reveal_strlit("/");
    if "/"@.is_prefix_of(s) {
        assert("/"@[0] == s.subrange(0, 1)[0]);
        lemma_pieces_after(s);
    }
}

proof fn lemma_pieces_after(s: Seq<char>)
    requires
        s.len() > 0,
        s[0] == '/',
    ensures
        pieces(s, '/').len() > 1,
        pieces(s, '/')[0].len() == 0,
    decreases s.len(),
{
    let before = pieces(s.drop_last(), '/');
    if s.len() == 1 {
        assert(s.drop_last() =~= Seq::empty());
        assert(before == seq![s.drop_last()]);
    } else {
        lemma_pieces_after(s.drop_last());
    }
}

proof fn lemma_message_codes(s: Seq<char>)
    ensures
        is_message(s) <==> (encode_utf8(s).len() <= 500 && !s.contains('\r') && !s.contains('\n')
            && !s.contains('\0') && !s.contains('[') && forall|i: int|
            0 <= i < s.len() - 1 ==> !(#[trigger] s[i] == '\\' && s[i + 1] == 'n')),
{
    if is_message(s) {
        assert forall|c: char| s.contains(c) implies c != '\r' && c != '\n' && c != '\0' && c
            != '[' by {
            let k = choose|k: int| 0 <= k < s.len() && s[k] == c;
            assert(s[k] == c);
        }
    } else if !s.contains('\r') && !s.contains('\n') && !s.contains('\0') && !s.contains('[') {
        assert forall|i: int| 0 <= i < s.len() implies #[trigger] s[i] != '\r' && s[i] != '\n'
            && s[i] != '\0' && s[i] != '[' by {
            assert(s.contains(s[i]));
        }
    }
}

/// The fault of an option names it, after words of its own.
pub proof fn law_faults_name_the_option(a: Seq<char>)
    ensures
        ConfigFault::MissingValue(a).words() == "Missing value for "@ + a,
        ConfigFault::UnknownOption(a).words() == "Unknown option: "@ + a,
        ConfigFault::InvalidToken(Setting::Title).words()
            == "Invalid title: must be a nonempty ASCII token"@,
        ConfigFault::InvalidToken(Setting::Current).words()
            == "Invalid current: must be a nonempty ASCII token"@,
        ConfigFault::InvalidToken(Setting::Version).words()
            == "Invalid version: must be a nonempty ASCII token"@,
        ConfigFault::InvalidToken(Setting::Destination).words()
            == "Invalid destination: must be a nonempty ASCII token"@,
        ConfigFault::InvalidToken(Setting::BaseUrl).words()
            == "Invalid base-url: must be a nonempty ASCII token"@,
{
    reveal_strlit("Invalid ");
    reveal_strlit(": must be a nonempty ASCII token");
    reveal_strlit("title");
    reveal_strlit("current");
    reveal_strlit("version");
    reveal_strlit("destination");
    reveal_strlit("base-url");
    reveal_strlit("Invalid title: must be a nonempty ASCII token");
    reveal_strlit("Invalid current: must be a nonempty ASCII token");
    reveal_strlit("Invalid version: must be a nonempty ASCII token");
    reveal_strlit("Invalid destination: must be a nonempty ASCII token");
    reveal_strlit("Invalid base-url: must be a nonempty ASCII token");
}

/// Whether a part stands in a text.
pub open spec fn stands_in(part: Seq<char>, text: Seq<char>) -> bool {
    exists|k: int|
        0 <= k <= text.len() - part.len() && #[trigger] text.subrange(k, k + part.len()) == part
}

/// The usage tells of each setting that has a default what the default is.
#[verifier::rlimit(40)]
pub proof fn law_usage_tells_the_defaults()
    ensures
        stands_in("--bind ADDR  ["@ + defaults().bind + "]\n"@, usage_text()),
        stands_in("--base-url URL  ["@ + defaults().base_url + "]\n"@, usage_text()),
        stands_in("--title ID ["@ + defaults().title + "]\n"@, usage_text()),
        stands_in("--current VERSION ["@ + defaults().current + "] "@, usage_text()),
        stands_in("--version VERSION ["@ + defaults().version + "]\n"@, usage_text()),
        stands_in("--destination RELATIVE_PATH ["@ + defaults().destination + "]\n"@, usage_text()),
{
    reveal_strlit("COD4 patcher HTTP server\n\n--file PATH (required)\n--signature PATH  Base64 RSA-PSS/Tiger signature with ORIGINAL key, zero salt\n--private-key PATH  PKCS#1 PEM; auto-sign for the matching RPCS3 key patch\n--public-key PATH  Optional PKCS#1 DER validation key\n--signature-out PATH  Save generated/validated Base64 signature\n--sign-only  Sign/verify and exit without TCP (requires signature-out)\n--diagnostic-unsigned  Intentionally invalid signature; client will reject\n--no-update  Return 404 for manifest; still serve selected file\n--bind ADDR  [0.0.0.0:80]\n--base-url URL  [http://");
    reveal_strlit("]\n--title ID [BLUS30072]\n--current VERSION [1.3]  Existing client GAME.VER; absent file means 1.0\n--version VERSION [1.4]\n--destination RELATIVE_PATH [test.bin]\n--message TEXT\n--required-kb INTEGER  Override estimated temporary + destination disk space\n\nWithout a signature, only transport/no-update mode is available.");
    reveal_strlit("cod4mw-ps3update.charlieoscardelta.com");
    reveal_strlit("--base-url URL  [");
    reveal_strlit("--bind ADDR  [");
    reveal_strlit("--current VERSION [");
    reveal_strlit("--destination RELATIVE_PATH [");
    reveal_strlit("--title ID [");
    reveal_strlit("--version VERSION [");
    reveal_strlit("0.0.0.0:80");
    reveal_strlit("1.3");
    reveal_strlit("1.4");
    reveal_strlit("BLUS30072");
    reveal_strlit("] ");
    reveal_strlit("]\n");
    reveal_strlit("http://");
    reveal_strlit("test.bin");
    let text = usage_text();
    let bind = "--bind ADDR  ["@ + defaults().bind + "]\n"@;
    assert(text.subrange(530int, 530int + bind.len()) =~= bind);
    let base_url = "--base-url URL  ["@ + defaults().base_url + "]\n"@;
    assert(text.subrange(556int, 556int + base_url.len()) =~= base_url);
    let title = "--title ID ["@ + defaults().title + "]\n"@;
    assert(text.subrange(620int, 620int + title.len()) =~= title);
    let current = "--current VERSION ["@ + defaults().current + "] "@;
    assert(text.subrange(643int, 643int + current.len()) =~= current);
    let version = "--version VERSION ["@ + defaults().version + "]\n"@;
    assert(text.subrange(716int, 716int + version.len()) =~= version);
    let destination = "--destination RELATIVE_PATH ["@ + defaults().destination + "]\n"@;
    assert(text.subrange(740int, 740int + destination.len()) =~= destination);
}

} // verus!
