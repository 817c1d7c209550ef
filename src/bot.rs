//! Configuration of the bot and the reading of chat commands.
use vstd::prelude::*;
use crate::log::LogLevel;
use crate::store::{Command, FlatStore};
use crate::needed::{need_fold, got_fold, need_message, got_message, tokens};

verus! {

/// The leftmost match of regular expression `pattern` in `t`, as the
/// `regex` crate finds it; `None` where there is no match or the pattern is
/// not a valid expression.
pub uninterp spec fn regex_match(pattern: Seq<char>, t: Seq<char>) -> Option<Seq<char>>;

/// Relies on `regex::Regex::new` and `regex::Regex::find`: the text of the
/// leftmost match, a part of `t`.
#[verifier::external_body]
fn find_match(pattern: &str, t: &str) -> (r: Option<String>)
    ensures
        match r {
            Some(p) => regex_match(pattern@, t@) == Some(p@) && p@.len() <= t@.len(),
            None => regex_match(pattern@, t@) is None,
        },
{
    match regex::Regex::new(pattern) {
        Ok(re) => re.find(t).map(|m| m.as_str().to_string()),
        Err(_) => None,
    }
}

/// The text up to the first space.
pub open spec fn first_word(t: Seq<char>) -> Seq<char>
    decreases t.len(),
{
    if t.len() == 0 || t[0] == ' ' {
        Seq::empty()
    } else {
        seq![t[0]] + first_word(t.drop_first())
    }
}

/// The command that a message holds: none where it does not start with `/`
/// and a word (the pattern `^/\w+`); else by its first word, with the text
/// after that match as argument.
pub open spec fn command_spec(t: Seq<char>, r: Command) -> bool {
    match regex_match("^/\\w+"@, t) {
        None => r is Text,
        Some(p) => {
            let w = first_word(t);
            if w == "/need"@ {
                r matches Command::Need(a) && a@ == t.skip(p.len() as int)
            } else if w == "/got"@ {
                r matches Command::Got(a) && a@ == t.skip(p.len() as int)
            } else {
                r matches Command::Unknown(u) && u@ == w
            }
        },
    }
}

proof fn lemma_first_word_at(t: Seq<char>, i: int)
    requires
        0 <= i <= t.len(),
        forall|k: int| 0 <= k < i ==> #[trigger] t[k] != ' ',
        i < t.len() ==> t[i] == ' ',
    ensures
        first_word(t) == t.take(i),
    decreases i,
{
    if i == 0 {
        assert(t.take(0) =~= Seq::<char>::empty());
    } else {
        let u = t.drop_first();
        assert forall|k: int| 0 <= k < i - 1 implies #[trigger] u[k] != ' ' by {
            assert(u[k] == t[k + 1]);
        }
        lemma_first_word_at(u, i - 1);
        assert(t.take(i) =~= seq![t[0]] + u.take(i - 1));
    }
}

/// The text of `t` up to its first space.
fn first_word_of(t: &str) -> (r: String)
    ensures
        r@ == first_word(t@),
{
    let n = t.unicode_len();
    let mut i: usize = 0;
    while i < n && t.get_char(i) != ' '
        invariant
            n == t@.len(),
            i <= n,
            forall|k: int| 0 <= k < i ==> #[trigger] t@[k] != ' ',
        decreases n - i,
    {
        i = i + 1;
    }
    proof {
        lemma_first_word_at(t@, i as int);
    }
    String::from_str(t.substring_char(0, i))
}

/// Reads the command in a chat message.
pub fn parse_command(t: &str) -> (r: Command)
    ensures
        command_spec(t@, r),
{
    match find_match("^/\\w+", t) {
        None => Command::Text,
        Some(p) => {
            let w = first_word_of(t);
            let plen = p.as_str().unicode_len();
            let n = t.unicode_len();
            let arg = String::from_str(t.substring_char(plen, n));
            assert(t@.subrange(plen as int, n as int) =~= t@.skip(plen as int));
            let need = String::from_str("/need");
            let got = String::from_str("/got");
            if w == need {
                Command::Need(arg)
            } else if w == got {
                Command::Got(arg)
            } else {
                Command::Unknown(w)
            }
        },
    }
}

impl FlatStore {
    /// Whether answering `cmd` in conversation `cid` first needs the
    /// conversation's snapshot: the command touches the list and the
    /// conversation has not been seen.
    pub fn needs_hydration(&self, cid: i64, cmd: &Command) -> (r: bool)
        ensures
            r == ((cmd is Need || cmd is Got) && !self.lists().contains_key(cid)),
    {
        match cmd {
            Command::Need(_) | Command::Got(_) => !self.contains(cid),
            _ => false,
        }
    }

    /// Carries out `cmd` in conversation `cid`: the answer to send, or
    /// nothing for a message that is no list command.
    pub fn apply(&mut self, cid: i64, cmd: Command) -> (r: Option<String>)
        requires
            (cmd is Need || cmd is Got) ==> old(self).lists().contains_key(cid),
        ensures
            match cmd {
                Command::Need(a) => {
                    let f = need_fold(old(self).lists()[cid], tokens(a@));
                    &&& final(self).lists() == old(self).lists().insert(cid, f.0)
                    &&& r matches Some(m) && m@ == need_message(f.1, f.0)
                },
                Command::Got(a) => {
                    let f = got_fold(old(self).lists()[cid], tokens(a@));
                    &&& final(self).lists() == old(self).lists().insert(cid, f.0)
                    &&& r matches Some(m) && m@ == got_message(f.1, f.0)
                },
                _ => final(self).lists() == old(self).lists() && r is None,
            },
    {
        match cmd {
            Command::Need(a) => Some(self.need(cid, a)),
            Command::Got(a) => Some(self.got(cid, a)),
            _ => None,
        }
    }
}

/// The settings from which the bot is started.
pub struct BotBuilder {
    token: String,
    logfile: Option<String>,
    loglevel: LogLevel,
    data_dir: String,
}

impl BotBuilder {
    /// Settings with the given access token, no log file, level `Info`, and
    /// data kept under `data/`.
    pub fn new(token: String) -> (r: BotBuilder)
        ensures
            r.token_spec() == token@,
            r.logfile_spec() is None,
            r.loglevel_spec() == LogLevel::Info,
            r.data_dir_spec() == "data/"@,
    {
        BotBuilder {
            token,
            logfile: None,
            loglevel: LogLevel::Info,
            data_dir: String::from_str("data/"),
        }
    }

    /// The access token.
    pub closed spec fn token_spec(&self) -> Seq<char> {
        self.token@
    }

    /// The log file, if one was given.
    pub closed spec fn logfile_spec(&self) -> Option<Seq<char>> {
        match self.logfile {
            Some(p) => Some(p@),
            None => None,
        }
    }

    /// The least level that is logged.
    pub closed spec fn loglevel_spec(&self) -> LogLevel {
        self.loglevel
    }

    /// The directory of the snapshots.
    pub closed spec fn data_dir_spec(&self) -> Seq<char> {
        self.data_dir@
    }

    /// Logs into the file at `path` as well; by default no file is written.
    pub fn with_logfile(self, path: String) -> (r: BotBuilder)
        ensures
            r.logfile_spec() == Some(path@),
            r.token_spec() == self.token_spec(),
            r.loglevel_spec() == self.loglevel_spec(),
            r.data_dir_spec() == self.data_dir_spec(),
    {
        BotBuilder {
            token: self.token,
            logfile: Some(path),
            loglevel: self.loglevel,
            data_dir: self.data_dir,
        }
    }

    /// Logs the messages of level `lvl` and above.
    pub fn with_loglevel(self, lvl: LogLevel) -> (r: BotBuilder)
        ensures
            r.loglevel_spec() == lvl,
            r.token_spec() == self.token_spec(),
            r.logfile_spec() == self.logfile_spec(),
            r.data_dir_spec() == self.data_dir_spec(),
    {
        let mut b = self;
        b.loglevel = lvl;
        b
    }

    /// Keeps the snapshots under `dir`.
    pub fn with_data_dir(self, dir: String) -> (r: BotBuilder)
        ensures
            r.data_dir_spec() == dir@,
            r.token_spec() == self.token_spec(),
            r.logfile_spec() == self.logfile_spec(),
            r.loglevel_spec() == self.loglevel_spec(),
    {
        let mut b = self;
        b.data_dir = dir;
        b
    }

    /// The access token.
    pub fn token(&self) -> (r: &String)
        ensures
            r@ == self.token_spec(),
    {
        &self.token
    }

    /// The log file, if one was given.
    pub fn logfile(&self) -> (r: Option<String>)
        ensures
            match r {
                Some(p) => self.logfile_spec() == Some(p@),
                None => self.logfile_spec() is None,
            },
    {
        match &self.logfile {
            Some(p) => Some(p.clone()),
            None => None,
        }
    }

    /// The least level that is logged.
    pub fn loglevel(&self) -> (r: LogLevel)
        ensures
            r == self.loglevel_spec(),
    {
        self.loglevel
    }

    /// The directory of the snapshots.
    pub fn data_dir(&self) -> (r: &String)
        ensures
            r@ == self.data_dir_spec(),
    {
        &self.data_dir
    }
}

} // verus!
