//! How log lines look.
use crate::text;
use vstd::prelude::*;

verus! {

/// What the targets of this crate's events start with.
pub const CRATE_PREFIX: &'static str = "ws2tcp_router::";

/// The filter where neither the options nor the environment give one.
pub const DEFAULT_FILTER: &'static str = "ws2tcp_router=info";

/// Colours off.
pub const RESET: &'static str = "\x1b[0m";

/// How bad an event is.
#[derive(Debug, Clone, Copy, PartialEq, Eq, Structural)]
pub enum Level {
    Error,
    Warn,
    Info,
    Debug,
    Trace,
}

/// The codes that switch a colour on and off; none where the output has no colours.
pub fn paint(ansi: bool, code: &'static str) -> (r: (&'static str, &'static str))
    ensures
        r.0@ == (if ansi {
            code@
        } else {
            ""@
        }),
        r.1@ == (if ansi {
            RESET@
        } else {
            ""@
        }),
{
    if ansi {
        (code, RESET)
    } else {
        ("", "")
    }
}

/// A text in a colour, where the output has colours.
pub open spec fn painted(ansi: bool, code: Seq<char>, s: Seq<char>) -> Seq<char> {
    if ansi {
        code + s + RESET@
    } else {
        s
    }
}

impl Level {
    /// The name of the level, five characters wide.
    pub open spec fn spec_name(self) -> Seq<char> {
        match self {
            Level::Error => "ERROR"@,
            Level::Warn => " WARN"@,
            Level::Info => " INFO"@,
            Level::Debug => "DEBUG"@,
            Level::Trace => "TRACE"@,
        }
    }

    /// The colour of the level.
    pub open spec fn spec_color(self) -> Seq<char> {
        match self {
            Level::Error => "\x1b[31m"@,
            Level::Warn => "\x1b[33m"@,
            Level::Info => "\x1b[32m"@,
            Level::Debug => "\x1b[34m"@,
            Level::Trace => "\x1b[35m"@,
        }
    }

    /// The name of the level, five characters wide.
    pub fn name(&self) -> (r: &'static str)
        ensures
            r@ == self.spec_name(),
    {
        match self {
            Level::Error => "ERROR",
            Level::Warn => " WARN",
            Level::Info => " INFO",
            Level::Debug => "DEBUG",
            Level::Trace => "TRACE",
        }
    }

    /// The colour of the level.
    pub fn color(&self) -> (r: &'static str)
        ensures
            r@ == self.spec_color(),
    {
        match self {
            Level::Error => "\x1b[31m",
            Level::Warn => "\x1b[33m",
            Level::Info => "\x1b[32m",
            Level::Debug => "\x1b[34m",
            Level::Trace => "\x1b[35m",
        }
    }
}

/// The target of an event without the crate's prefix (`proxy` instead of `ws2tcp_router::proxy`).
pub open spec fn short_target(target: Seq<char>) -> Seq<char> {
    match text::strip_prefix(target, CRATE_PREFIX@) {
        Some(short) => short,
        None => target,
    }
}

/// What stands before the fields of an event: its level and its target.
pub open spec fn event_prefix(level: Level, target: Seq<char>, ansi: bool) -> Seq<char> {
    painted(ansi, level.spec_color(), level.spec_name()) + " "@ + painted(
        ansi,
        "\x1b[2m"@,
        short_target(target) + ":"@,
    ) + " "@
}

/// A text in a colour, where the output has colours.
fn paint_text(ansi: bool, code: &'static str, s: &str) -> (r: String)
    ensures
        r@ == painted(ansi, code@, s@),
{
    let (on, off) = paint(ansi, code);
    let r = on.to_owned().concat(s).concat(off);
    proof {
        if !ansi {
            reveal_strlit("");
            assert(r@ =~= s@);
        }
    }
    r
}

/// What stands before the fields of an event: its level and its target, without the crate's
/// prefix.
pub fn format_event(level: Level, target: &str, ansi: bool) -> (r: String)
    ensures
        r@ == event_prefix(level, target@, ansi),
{
    let chars = text::chars_of(target);
    let short = match text::after_prefix(&chars, CRATE_PREFIX) {
        Some(short) => text::string_of(short),
        None => target.to_owned(),
    };
    let named = short.concat(":");
    paint_text(ansi, level.color(), level.name()).concat(" ").concat(
        paint_text(ansi, "\x1b[2m", named.as_str()).as_str(),
    ).concat(" ")
}

/// The text is a filter: directives that say which events are logged.
pub uninterp spec fn is_filter(filter: Seq<char>) -> bool;

/// `EnvFilter::try_new` of `tracing-subscriber` accepts the filters.
#[verifier::external_body]
fn filter_parses(filter: &str) -> (r: bool)
    ensures
        r == is_filter(filter@),
{
    tracing_subscriber::EnvFilter::try_new(filter).is_ok()
}

/// What is said of an option that is no filter.
pub open spec fn bad_filter_text(filter: Seq<char>) -> Seq<char> {
    "invalid --log-level filter "@ + text::quoted(filter)
}

/// The filter of the log, where `usable` says of the given text whether it is a filter: the
/// option, which has to be one; else the environment's, if it is one; else the default.
pub open spec fn filter_of(
    log_level: Option<Seq<char>>,
    environment: Option<Seq<char>>,
    usable: bool,
) -> Result<Seq<char>, Seq<char>> {
    match log_level {
        Some(level) => if usable {
            Ok(level)
        } else {
            Err(bad_filter_text(level))
        },
        None => match environment {
            Some(filter) => if usable {
                Ok(filter)
            } else {
                Ok(DEFAULT_FILTER@)
            },
            None => Ok(DEFAULT_FILTER@),
        },
    }
}

/// The contents of an optional text.
pub open spec fn given(s: Option<&str>) -> Option<Seq<char>> {
    match s {
        Some(s) => Some(s@),
        None => None,
    }
}

/// A choice of a filter, by its contents.
pub open spec fn chosen(r: Result<String, String>) -> Result<Seq<char>, Seq<char>> {
    match r {
        Ok(filter) => Ok(filter@),
        Err(message) => Err(message@),
    }
}

/// The filter of the log, where `usable` says of the given text whether it is a filter: the
/// option, which has to be one; else the environment's, if it is one; else the default.
pub fn checked_filter(log_level: Option<&str>, environment: Option<&str>, usable: bool) -> (r:
    Result<String, String>)
    ensures
        chosen(r) == filter_of(given(log_level), given(environment), usable),
{
    match log_level {
        Some(level) => if usable {
            Ok(level.to_owned())
        } else {
            Err("invalid --log-level filter ".to_owned().concat(text::quote(level).as_str()))
        },
        None => match environment {
            Some(filter) => if usable {
                Ok(filter.to_owned())
            } else {
                Ok(DEFAULT_FILTER.to_owned())
            },
            None => Ok(DEFAULT_FILTER.to_owned()),
        },
    }
}

/// The filter of the log: the option, which has to be a filter; else the environment's, if it is
/// one; else the default.
pub fn choose_filter(log_level: Option<&str>, environment: Option<&str>) -> (r: Result<
    String,
    String,
>)
    ensures
        chosen(r) == (match given(log_level) {
            Some(level) => filter_of(Some(level), given(environment), is_filter(level)),
            None => match given(environment) {
                Some(filter) => filter_of(None, Some(filter), is_filter(filter)),
                None => Ok(DEFAULT_FILTER@),
            },
        }),
{
    let usable = match log_level {
        Some(level) => filter_parses(level),
        None => match environment {
            Some(filter) => filter_parses(filter),
            None => true,
        },
    };
    checked_filter(log_level, environment, usable)
}

} // verus!
