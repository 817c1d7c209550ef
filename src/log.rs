use vstd::prelude::*;

verus! {

/// Several levels of importance for log messages, ordered from least to most
/// important.
#[derive(PartialEq, Eq, Structural, Debug, Clone, Copy)]
pub enum LogLevel {
    Debug,
    Info,
    Warning,
    Error,
}

/// The five-character abbreviation of a level.
pub open spec fn prefix_of(l: LogLevel) -> Seq<char> {
    match l {
        LogLevel::Debug => "DEBUG"@,
        LogLevel::Info => "INFO "@,
        LogLevel::Warning => "WARN "@,
        LogLevel::Error => "ERROR"@,
    }
}

/// Rank of a level: a larger rank means a more important message.
pub open spec fn level_rank(l: LogLevel) -> u8 {
    match l {
        LogLevel::Debug => 0,
        LogLevel::Info => 10,
        LogLevel::Warning => 20,
        LogLevel::Error => 30,
    }
}

impl LogLevel {
    /// The five-character abbreviation used when printing a message.
    pub fn prefix(&self) -> (r: &'static str)
        ensures
            r@ == prefix_of(*self),
            r@.len() == 5,
    {
        proof {
            reveal_strlit("DEBUG");
            reveal_strlit("INFO ");
            reveal_strlit("WARN ");
            reveal_strlit("ERROR");
        }
        match *self {
            LogLevel::Debug => "DEBUG",
            LogLevel::Info => "INFO ",
            LogLevel::Warning => "WARN ",
            LogLevel::Error => "ERROR",
        }
    }

    /// The rank of this level, used for comparisons.
    pub fn as_num(&self) -> (r: u8)
        ensures
            r == level_rank(*self),
    {
        match *self {
            LogLevel::Debug => 0,
            LogLevel::Info => 10,
            LogLevel::Warning => 20,
            LogLevel::Error => 30,
        }
    }
}

impl PartialOrd for LogLevel {
    fn partial_cmp(&self, other: &Self) -> (r: Option<std::cmp::Ordering>) {
        let a = self.as_num();
        let b = other.as_num();
        if a < b {
            Some(std::cmp::Ordering::Less)
        } else if a == b {
            Some(std::cmp::Ordering::Equal)
        } else {
            Some(std::cmp::Ordering::Greater)
        }
    }
}

impl vstd::std_specs::cmp::PartialOrdSpecImpl for LogLevel {
    open spec fn obeys_partial_cmp_spec() -> bool {
        true
    }

    open spec fn partial_cmp_spec(&self, other: &LogLevel) -> Option<std::cmp::Ordering> {
        let a = level_rank(*self);
        let b = level_rank(*other);
        if a < b {
            Some(std::cmp::Ordering::Less)
        } else if a == b {
            Some(std::cmp::Ordering::Equal)
        } else {
            Some(std::cmp::Ordering::Greater)
        }
    }
}

/// Whether a message of level `msg` passes a logger set to level `threshold`.
pub fn is_logged(msg: LogLevel, threshold: LogLevel) -> (r: bool)
    ensures
        r == (level_rank(msg) >= level_rank(threshold)),
{
    !(msg < threshold)
}

/// The line that records message `msg` of level `lvl` in a log file.
pub fn log_line(lvl: LogLevel, msg: &str) -> (r: String)
    ensures
        r@ == "["@ + prefix_of(lvl) + "] "@ + msg@ + "\n"@,
{
    let mut r = String::from_str("[");
    r.append(lvl.prefix());
    r.append("] ");
    r.append(msg);
    r.append("\n");
    r
}

} // verus!
