//! Settings of the CSI controller.

use std::time::Duration;
use vstd::prelude::*;
use vstd::string::StringExecFns;

verus! {

/// The most decimal digits that a text handed to the duration parser may
/// hold.
pub const MAX_TIMEOUT_DIGITS: usize = 11;

/// Whether `c` is a decimal digit.
pub open spec fn is_digit(c: char) -> bool {
    '0' <= c && c <= '9'
}

/// The number of decimal digits in `text`.
pub open spec fn digits_in(text: Seq<char>) -> nat
    decreases text.len(),
{
    if text.len() == 0 {
        0
    } else {
        digits_in(text.drop_last()) + if is_digit(text.last()) {
            1nat
        } else {
            0nat
        }
    }
}

proof fn lemma_digits_grow(text: Seq<char>, upto: int)
    requires
        0 <= upto <= text.len(),
    ensures
        digits_in(text.take(upto)) <= digits_in(text),
    decreases text.len() - upto,
{
    if upto < text.len() {
        lemma_digits_grow(text, upto + 1);
        assert(text.take(upto + 1).drop_last() =~= text.take(upto));
    } else {
        assert(text.take(upto) =~= text);
    }
}

/// Whether `text` holds no more than `limit` decimal digits.
pub fn has_at_most_digits(text: &str, limit: usize) -> (few: bool)
    ensures
        few == (digits_in(text@) <= limit),
{
    let mut found: usize = 0;
    for c in it: text.chars()
        invariant
            found == digits_in(it.seq().take(it.index() as int)),
            found <= limit,
            it.seq() == text@,
    {
        proof {
            let i = it.index() as int;
            assert(it.seq().take(i + 1).drop_last() =~= it.seq().take(i));
            assert(it.seq().take(i + 1).last() == c);
            lemma_digits_grow(text@, i + 1);
        }
        if '0' <= c && c <= '9' {
            if found == limit {
                return false;
            }
            found = found + 1;
        }
    }
    assert(text@.take(text@.len() as int) =~= text@);
    true
}

/// What `humantime::parse_duration` makes of `text`: the duration it stands
/// for, or the parser's words on why it stands for none.
pub uninterp spec fn parsed_duration(text: Seq<char>) -> Result<Duration, Seq<char>>;

/// Reads a duration such as `30s` or `1hour 12min 5s` with
/// `humantime::parse_duration`; an error comes back as the text that
/// `humantime` displays for it.
///
/// Taken on trust: the outcome is a function of the text alone. The parser
/// multiplies and adds with checks, but builds the sum with `Duration::new`,
/// which panics where the seconds stand at their maximum and the nanoseconds
/// carry over. The numbers of a text with eleven digits add up to less than
/// 10^11, and its longest unit, the year, has 31 557 600 seconds: the sum
/// stays far below the maximum.
#[verifier::external_body]
fn parse_duration(text: &str) -> (parsed: Result<Duration, String>)
    requires
        digits_in(text@) <= MAX_TIMEOUT_DIGITS,
    ensures
        match parsed {
            Ok(duration) => parsed_duration(text@) == Ok::<Duration, Seq<char>>(duration),
            Err(why) => parsed_duration(text@) == Err::<Duration, Seq<char>>(why@),
        },
{
    match humantime::parse_duration(text) {
        Ok(duration) => Ok(duration),
        Err(error) => Err(error.to_string()),
    }
}

/// Why the settings could not be put together.
#[derive(Debug, PartialEq, Eq)]
pub enum ConfigError {
    /// No REST endpoint was given.
    MissingEndpoint,
    /// No I/O timeout was given.
    MissingTimeout,
    /// The I/O timeout is not the text of a duration; what the parser says
    /// is wrong with it.
    InvalidTimeout(String),
}

/// An error over character sequences.
pub enum ConfigErrorView {
    MissingEndpoint,
    MissingTimeout,
    InvalidTimeout(Seq<char>),
}

impl View for ConfigError {
    type V = ConfigErrorView;

    open spec fn view(&self) -> ConfigErrorView {
        match self {
            ConfigError::MissingEndpoint => ConfigErrorView::MissingEndpoint,
            ConfigError::MissingTimeout => ConfigErrorView::MissingTimeout,
            ConfigError::InvalidTimeout(why) => ConfigErrorView::InvalidTimeout(why@),
        }
    }
}

impl ConfigError {
    /// What went wrong, in words. For a text that is no duration these are
    /// the words of the parser.
    pub fn message(&self) -> (text: String)
        ensures
            text@ == match self@ {
                ConfigErrorView::MissingEndpoint => "rest endpoint must be specified"@,
                ConfigErrorView::MissingTimeout => "I/O timeout must be specified"@,
                ConfigErrorView::InvalidTimeout(why) => why,
            },
    {
        match self {
            ConfigError::MissingEndpoint => String::from_str("rest endpoint must be specified"),
            ConfigError::MissingTimeout => String::from_str("I/O timeout must be specified"),
            ConfigError::InvalidTimeout(why) => why.clone(),
        }
    }
}

/// The timeout that `text` stands for, or why it stands for none.
pub open spec fn timeout_of(text: Seq<char>) -> Result<Duration, ConfigErrorView> {
    match parsed_duration(text) {
        Ok(duration) => Ok(duration),
        Err(why) => Err(ConfigErrorView::InvalidTimeout(why)),
    }
}

/// A timeout or an error over character sequences.
pub open spec fn timeout_view(timeout: Result<Duration, ConfigError>) -> Result<
    Duration,
    ConfigErrorView,
> {
    match timeout {
        Ok(duration) => Ok(duration),
        Err(e) => Err(e@),
    }
}

/// Reads the text of a timeout. The text may hold `MAX_TIMEOUT_DIGITS`
/// decimal digits at most: `has_at_most_digits` tells.
pub fn parse_timeout(text: &str) -> (timeout: Result<Duration, ConfigError>)
    requires
        digits_in(text@) <= MAX_TIMEOUT_DIGITS,
    ensures
        timeout_view(timeout) == timeout_of(text@),
{
    match parse_duration(text) {
        Ok(duration) => Ok(duration),
        Err(why) => Err(ConfigError::InvalidTimeout(why)),
    }
}

/// CSI Controller config.
#[derive(Debug)]
pub struct CsiControllerConfig {
    /// REST API endpoint URL.
    rest_endpoint: String,
    /// I/O timeout for REST API operations.
    io_timeout: Duration,
}

/// The settings over character sequences.
pub struct CsiControllerConfigView {
    pub rest_endpoint: Seq<char>,
    pub io_timeout: Duration,
}

impl View for CsiControllerConfig {
    type V = CsiControllerConfigView;

    closed spec fn view(&self) -> CsiControllerConfigView {
        CsiControllerConfigView { rest_endpoint: self.rest_endpoint@, io_timeout: self.io_timeout }
    }
}

/// The settings that the arguments stand for: the endpoint is asked for
/// first, then the timeout, which must be the text of a duration.
pub open spec fn settings_of(endpoint: Option<Seq<char>>, timeout: Option<Seq<char>>) -> Result<
    CsiControllerConfigView,
    ConfigErrorView,
> {
    match endpoint {
        None => Err(ConfigErrorView::MissingEndpoint),
        Some(rest_endpoint) => match timeout {
            None => Err(ConfigErrorView::MissingTimeout),
            Some(text) => match timeout_of(text) {
                Ok(io_timeout) => Ok(CsiControllerConfigView { rest_endpoint, io_timeout }),
                Err(e) => Err(e),
            },
        },
    }
}

impl CsiControllerConfig {
    /// The settings for the REST endpoint and I/O timeout given.
    pub fn new(rest_endpoint: String, io_timeout: Duration) -> (config: Self)
        ensures
            config@ == (CsiControllerConfigView { rest_endpoint: rest_endpoint@, io_timeout }),
    {
        Self { rest_endpoint, io_timeout }
    }

    /// Puts the settings together from the values of the arguments
    /// `endpoint` and `timeout`, where they were given. The timeout may hold
    /// `MAX_TIMEOUT_DIGITS` decimal digits at most.
    pub fn from_args(endpoint: Option<&str>, timeout: Option<&str>) -> (config: Result<
        Self,
        ConfigError,
    >)
        requires
            timeout matches Some(text) ==> digits_in(text@) <= MAX_TIMEOUT_DIGITS,
        ensures
            match config {
                Ok(c) => Ok(c@),
                Err(e) => Err(e@),
            } == settings_of(
                match endpoint {
                    Some(e) => Some(e@),
                    None => None,
                },
                match timeout {
                    Some(t) => Some(t@),
                    None => None,
                },
            ),
    {
        let rest_endpoint = match endpoint {
            Some(endpoint) => endpoint,
            None => {
                return Err(ConfigError::MissingEndpoint);
            },
        };
        let text = match timeout {
            Some(text) => text,
            None => {
                return Err(ConfigError::MissingTimeout);
            },
        };
        match parse_timeout(text) {
            Ok(io_timeout) => Ok(Self::new(String::from_str(rest_endpoint), io_timeout)),
            Err(e) => Err(e),
        }
    }

    /// Get REST API endpoint.
    pub fn rest_endpoint(&self) -> (endpoint: &str)
        ensures
            endpoint@ == self@.rest_endpoint,
    {
        self.rest_endpoint.as_str()
    }

    /// Get I/O timeout for REST API operations.
    pub fn io_timeout(&self) -> (timeout: Duration)
        ensures
            timeout == self@.io_timeout,
    {
        self.io_timeout
    }
}

} // verus!
