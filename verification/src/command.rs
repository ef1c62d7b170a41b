//! The command dispatcher and session state: a raw input line is
//! tokenized (double quotes group spaces into one token), routed to one
//! of exit, query, watch, download or help, and resolved against the
//! most recently fetched result list.
//!
//! Fetching a page and launching an external player or downloader are
//! outside work; the dispatcher only decides. `handle_command` returns a
//! `CommandAction` naming the outside step to perform, and
//! `finish_query` / `finish_launch` take that step's outcome and produce
//! the final state, so every decision in the session loop is verified.

use vstd::prelude::*;
use crate::text::{all_digits, digits_val, parse_dec_bounded, str_eq, trim, trim_spec};
use crate::youtube::{
    content_views, entry_wf, extract_spec, get_content, instance, instance_spec, print_content,
    render_spec, selectors_ok, Content, YoutubeError,
};

verus! {

/// What a completed command leaves behind: output to show, an error to
/// report, or the request to end the session.
#[derive(Clone, Debug, PartialEq)]
pub enum CommandState {
    Output(String),
    Error(String),
    Exit,
}

/// Which external program a `Launch` action stands for.
#[derive(Clone, Debug, PartialEq)]
pub enum LaunchKind {
    Player,
    Downloader,
}

/// What the session loop must do next: nothing more, fetch a document
/// from the given URL and hand the outcome to `finish_query`, or launch
/// an external program on the given URL and hand the outcome to
/// `finish_launch`.
#[derive(Clone, Debug, PartialEq)]
pub enum CommandAction {
    Done(CommandState),
    Fetch(String),
    Launch(LaunchKind, String),
}

/// How a fetch ended: the document text, a non-2xx status, a transport
/// failure, or a failure while reading the body.
#[derive(Clone, Debug, PartialEq)]
pub enum FetchOutcome {
    Body(String),
    Status(u16),
    Transport,
    ReadFailed(String),
}

/// How an external launch ended: the child ran and was reaped, waiting
/// on it failed, or no candidate program could be started (with the
/// spawn error's text).
#[derive(Clone, Debug, PartialEq)]
pub enum LaunchOutcome {
    Completed,
    WaitFailed,
    CouldNotStart(String),
}

/// A tokenized input line: the command name and its parameters.
pub struct CommandStructure {
    pub command: String,
    pub params: Vec<String>,
}

/// The session: holds the entry list of the most recent successful
/// query, empty at startup, replaced wholesale by `finish_query`.
pub struct CommandParser {
    pub current_content: Vec<Content>,
}

/// The views of a list of owned strings.
pub open spec fn views_of(v: Seq<String>) -> Seq<Seq<char>> {
    v.map_values(|p: String| p@)
}

/// The tokenizer's state machine: `cur` is the token being built and
/// `inq` whether a double quote is open. A quote toggles `inq` and is
/// dropped; a space outside quotes ends the current token; the end of
/// the line ends it too.
pub open spec fn tokenize_from(s: Seq<char>, cur: Seq<char>, inq: bool) -> Seq<Seq<char>>
    decreases s.len(),
{
    if s.len() == 0 {
        seq![cur]
    } else if s[0] == '"' {
        tokenize_from(s.drop_first(), cur, !inq)
    } else if s[0] == ' ' && !inq {
        seq![cur] + tokenize_from(s.drop_first(), Seq::empty(), inq)
    } else {
        tokenize_from(s.drop_first(), cur.push(s[0]), inq)
    }
}

/// The tokens of an input line; an empty line has none.
pub open spec fn tokenize(s: Seq<char>) -> Seq<Seq<char>> {
    if s.len() == 0 {
        Seq::empty()
    } else {
        tokenize_from(s, Seq::empty(), false)
    }
}

/// Whether a token is a usable index: all digits with a value that fits
/// the platform's index type.
pub open spec fn is_index_token(s: Seq<char>) -> bool {
    s.len() > 0 && all_digits(s) && digits_val(s) <= usize::MAX
}

/// The action is a finished command that reports exactly this error.
pub open spec fn act_is_error(act: CommandAction, msg: Seq<char>) -> bool {
    act matches CommandAction::Done(CommandState::Error(m)) && m@ == msg
}

/// What resolving a query parameter yields: a non-index is a fresh
/// search for the literal text; an index must name a non-video entry,
/// whose stored link is followed.
pub open spec fn query_post(content: Seq<Content>, param: Seq<char>, act: CommandAction) -> bool {
    let t = trim_spec(param);
    if !is_index_token(t) {
        act matches CommandAction::Fetch(url) && url@ == instance_spec() + "/search?q="@ + param
    } else if digits_val(t) >= content.len() {
        act_is_error(act, "Index out of bounds!"@)
    } else {
        let entry = content[digits_val(t) as int];
        match entry {
            Content::Video(_) => act_is_error(
                act,
                "Cannot query a video directly. Use w(atch) instead"@,
            ),
            _ => act matches CommandAction::Fetch(url) && url@ == instance_spec()
                + entry.link_spec(),
        }
    }
}

/// What the watch command yields: only a video entry can be watched,
/// and it launches the player on the video's absolute URL.
pub open spec fn watch_post(content: Seq<Content>, idx: Seq<char>, act: CommandAction) -> bool {
    if !is_index_token(idx) {
        act_is_error(act, "Not a Number!"@)
    } else if digits_val(idx) >= content.len() {
        act_is_error(act, "Index out of bounds!"@)
    } else {
        match content[digits_val(idx) as int] {
            Content::Video(v) => act matches CommandAction::Launch(LaunchKind::Player, url)
                && url@ == instance_spec() + v.link@,
            Content::Playlist(_) => act_is_error(act, "Cannot watch Channel or Playlist directly"@),
            Content::Channel(_) => act_is_error(act, "Cannot watch Channel or Playlist directly"@),
            Content::Navigation(_) => act_is_error(act, "Cannot watch navigational Content"@),
            Content::Unknown => act_is_error(act, "Cannot watch unknown Content"@),
        }
    }
}

/// What the download command yields: anything but a navigation link or
/// an unknown entry launches the downloader on its absolute URL.
pub open spec fn download_post(content: Seq<Content>, idx: Seq<char>, act: CommandAction) -> bool {
    if !is_index_token(idx) {
        act_is_error(act, "Not a Number!"@)
    } else if digits_val(idx) >= content.len() {
        act_is_error(act, "Index out of bounds!"@)
    } else {
        let entry = content[digits_val(idx) as int];
        match entry {
            Content::Navigation(_) => act_is_error(act, "Cannot download navigational Content"@),
            Content::Unknown => act_is_error(act, "Cannot download unknown Content"@),
            _ => act matches CommandAction::Launch(LaunchKind::Downloader, url) && url@
                == instance_spec() + entry.link_spec(),
        }
    }
}

/// The static help text.
pub open spec fn help_spec() -> Seq<char> {
    "ytcli help:\nQuery Content: q(uery) [term | index]\nWatch Content: w(atch) [index]\nDownload Content: d(ownload) [index]\nExit: exit"@
}

/// The whole dispatch table: which action each tokenized line produces
/// against the current entry list.
pub open spec fn handle_command_post(
    content: Seq<Content>,
    cmd: Seq<char>,
    act: CommandAction,
) -> bool {
    let toks = tokenize(cmd);
    if toks.len() == 0 {
        act_is_error(act, "Invalid Syntax"@)
    } else {
        let c = toks[0];
        let np = toks.len() - 1;
        if c == "exit"@ {
            if np == 0 {
                act matches CommandAction::Done(CommandState::Exit)
            } else {
                act_is_error(act, "Usage: exit"@)
            }
        } else if c == "q"@ || c == "query"@ {
            if np == 1 {
                query_post(content, toks[1], act)
            } else {
                act_is_error(act, "Usage: q(uery) [term]"@)
            }
        } else if c == "w"@ || c == "watch"@ {
            if np == 1 {
                watch_post(content, toks[1], act)
            } else {
                act_is_error(act, "Usage: w(atch) [index]"@)
            }
        } else if c == "d"@ || c == "download"@ {
            if np == 1 {
                download_post(content, toks[1], act)
            } else {
                act_is_error(act, "Usage: d(ownload) [index]"@)
            }
        } else if c == "h"@ || c == "help"@ {
            act matches CommandAction::Done(CommandState::Output(m)) && m@ == help_spec()
        } else {
            act_is_error(act, "Unknown Command: "@ + c + "\n"@ + help_spec())
        }
    }
}

fn done_error(msg: &str) -> (act: CommandAction)
    ensures
        act_is_error(act, msg@),
{
    CommandAction::Done(CommandState::Error(String::from_str(msg)))
}

impl CommandParser {
    /// A fresh session with no fetched content.
    pub fn new() -> (p: CommandParser)
        ensures
            p.current_content@.len() == 0,
    {
        CommandParser { current_content: Vec::new() }
    }

    /// Splits an input line on spaces, except that a double quote
    /// toggles a quoted span whose spaces stay in the current token;
    /// the quotes themselves are dropped. An empty line has no tokens.
    pub fn get_command_parts(cmd: &str) -> (parts: Vec<String>)
        ensures
            views_of(parts@) == tokenize(cmd@),
    {
        let len = cmd.unicode_len();
        if len == 0 {
            let parts: Vec<String> = Vec::new();
            proof {
                assert(views_of(parts@) =~= Seq::<Seq<char>>::empty());
            }
            return parts;
        }
        let mut parts: Vec<String> = Vec::new();
        let mut current_part = String::new();
        let mut in_quotation = false;
        let mut i: usize = 0;
        proof {
            assert(views_of(parts@) =~= Seq::<Seq<char>>::empty());
            assert(cmd@.skip(0) =~= cmd@);
            assert(Seq::<Seq<char>>::empty() + tokenize_from(cmd@, Seq::empty(), false)
                =~= tokenize_from(cmd@, Seq::empty(), false));
        }
        while i < len
            invariant
                len == cmd@.len(),
                len > 0,
                0 <= i <= len,
                tokenize(cmd@) == views_of(parts@) + tokenize_from(
                    cmd@.skip(i as int),
                    current_part@,
                    in_quotation,
                ),
            decreases len - i,
        {
            let c = cmd.get_char(i);
            proof {
                assert(cmd@.skip(i as int)[0] == cmd@[i as int]);
                assert(cmd@.skip(i as int).drop_first() =~= cmd@.skip(i + 1));
            }
            if c == '"' {
                in_quotation = !in_quotation;
            } else if c == ' ' && !in_quotation {
                let ghost old_parts = parts@;
                let ghost old_cur = current_part@;
                parts.push(current_part);
                current_part = String::new();
                proof {
                    assert(views_of(parts@) =~= views_of(old_parts).push(old_cur));
                    assert(views_of(old_parts).push(old_cur) =~= views_of(old_parts) + seq![
                        old_cur,
                    ]);
                    assert((views_of(old_parts) + seq![old_cur]) + tokenize_from(
                        cmd@.skip(i + 1),
                        Seq::empty(),
                        in_quotation,
                    ) =~= views_of(old_parts) + (seq![old_cur] + tokenize_from(
                        cmd@.skip(i + 1),
                        Seq::empty(),
                        in_quotation,
                    )));
                }
            } else {
                current_part.push(c);
            }
            i += 1;
        }
        proof {
            assert(cmd@.skip(len as int).len() == 0);
        }
        let ghost old_parts = parts@;
        let ghost old_cur = current_part@;
        parts.push(current_part);
        proof {
            assert(views_of(parts@) =~= views_of(old_parts).push(old_cur));
            assert(views_of(old_parts).push(old_cur) =~= views_of(old_parts) + seq![old_cur]);
        }
        parts
    }

    /// Tokenizes a line into the command name and its parameters; an
    /// empty line has no command.
    pub fn parse_command(cmd: &str) -> (r: Result<CommandStructure, String>)
        ensures
            (r is Ok) == (tokenize(cmd@).len() > 0),
            r is Ok ==> r->Ok_0.command@ == tokenize(cmd@)[0] && views_of(r->Ok_0.params@)
                == tokenize(cmd@).drop_first(),
    {
        let mut parts = Self::get_command_parts(cmd);
        if parts.len() == 0 {
            proof {
                assert(views_of(parts@).len() == parts@.len());
            }
            return Err(String::from_str("No Command given"));
        }
        proof {
            assert(views_of(parts@).len() == parts@.len());
            assert(views_of(parts@)[0] == parts@[0]@);
        }
        let ghost before = parts@;
        let command = parts.remove(0);
        proof {
            assert(views_of(parts@) =~= views_of(before).drop_first());
        }
        Ok(CommandStructure { command, params: parts })
    }

    /// Resolves a query parameter: a non-numeric term becomes a fresh
    /// text search; a numeric index must name a non-video entry, whose
    /// stored link becomes the next request path. The resulting path is
    /// relative; the caller puts the instance base in front.
    pub fn get_query_url(&self, param: &str) -> (r: Result<String, CommandState>)
        ensures
            ({
                let t = trim_spec(param@);
                &&& !is_index_token(t) ==> r is Ok && r->Ok_0@ == "/search?q="@ + param@
                &&& is_index_token(t) && digits_val(t) >= self.current_content@.len() ==> r is Err
                    && (r->Err_0 matches CommandState::Error(m) && m@ == "Index out of bounds!"@)
                &&& is_index_token(t) && digits_val(t) < self.current_content@.len() ==> ({
                    let entry = self.current_content@[digits_val(t) as int];
                    match entry {
                        Content::Video(_) => r is Err && (r->Err_0 matches CommandState::Error(m)
                            && m@ == "Cannot query a video directly. Use w(atch) instead"@),
                        _ => r is Ok && r->Ok_0@ == entry.link_spec(),
                    }
                })
            }),
    {
        let trimmed = trim(param);
        match parse_dec_bounded(trimmed, usize::MAX as u64) {
            Some(index64) => {
                let index = index64 as usize;
                if index < self.current_content.len() {
                    let entry = &self.current_content[index];
                    match entry {
                        Content::Video(_) => Err(
                            CommandState::Error(
                                String::from_str(
                                    "Cannot query a video directly. Use w(atch) instead",
                                ),
                            ),
                        ),
                        _ => Ok(entry.get_link()),
                    }
                } else {
                    Err(CommandState::Error(String::from_str("Index out of bounds!")))
                }
            },
            None => Ok(String::from_str("/search?q=").concat(param)),
        }
    }

    /// Resolves an index token into the entry it names: not a number
    /// and out-of-range are the two ways it fails.
    pub fn get_content_for_index(&self, index: &str) -> (r: Result<&Content, CommandState>)
        ensures
            !is_index_token(index@) ==> r is Err && (r->Err_0 matches CommandState::Error(m) && m@
                == "Not a Number!"@),
            is_index_token(index@) && digits_val(index@) >= self.current_content@.len() ==> r is Err
                && (r->Err_0 matches CommandState::Error(m) && m@ == "Index out of bounds!"@),
            is_index_token(index@) && digits_val(index@) < self.current_content@.len() ==> r is Ok
                && *r->Ok_0 == self.current_content@[digits_val(index@) as int],
    {
        match parse_dec_bounded(index, usize::MAX as u64) {
            Some(index64) => {
                let i = index64 as usize;
                if i < self.current_content.len() {
                    Ok(&self.current_content[i])
                } else {
                    Err(CommandState::Error(String::from_str("Index out of bounds!")))
                }
            },
            None => Err(CommandState::Error(String::from_str("Not a Number!"))),
        }
    }

    fn handle_watch(&self, index: &str) -> (act: CommandAction)
        ensures
            watch_post(self.current_content@, index@, act),
    {
        let content = match self.get_content_for_index(index) {
            Ok(content) => content,
            Err(state) => {
                return CommandAction::Done(state);
            },
        };
        match content {
            Content::Video(_) => CommandAction::Launch(LaunchKind::Player, content.get_url()),
            Content::Playlist(_) => done_error("Cannot watch Channel or Playlist directly"),
            Content::Channel(_) => done_error("Cannot watch Channel or Playlist directly"),
            Content::Navigation(_) => done_error("Cannot watch navigational Content"),
            Content::Unknown => done_error("Cannot watch unknown Content"),
        }
    }

    fn handle_download(&self, index: &str) -> (act: CommandAction)
        ensures
            download_post(self.current_content@, index@, act),
    {
        let content = match self.get_content_for_index(index) {
            Ok(content) => content,
            Err(state) => {
                return CommandAction::Done(state);
            },
        };
        match content {
            Content::Navigation(_) => done_error("Cannot download navigational Content"),
            Content::Unknown => done_error("Cannot download unknown Content"),
            _ => CommandAction::Launch(LaunchKind::Downloader, content.get_url()),
        }
    }

    /// The static help text.
    pub fn get_help() -> (r: String)
        ensures
            r@ == help_spec(),
    {
        String::from_str(
            "ytcli help:\nQuery Content: q(uery) [term | index]\nWatch Content: w(atch) [index]\nDownload Content: d(ownload) [index]\nExit: exit",
        )
    }

    /// Dispatches one input line against the current session state and
    /// decides what happens: a finished state, a fetch to perform, or a
    /// program to launch. The session state itself never changes here.
    pub fn handle_command(&mut self, cmd: &str) -> (act: CommandAction)
        ensures
            final(self).current_content == old(self).current_content,
            handle_command_post(old(self).current_content@, cmd@, act),
    {
        let command: CommandStructure = match Self::parse_command(cmd) {
            Ok(structure) => structure,
            Err(_) => {
                return done_error("Invalid Syntax");
            },
        };
        let params = command.params;
        let np = params.len();
        proof {
            assert(views_of(params@).len() == params@.len());
            if np >= 1 {
                assert(views_of(params@)[0] == params@[0]@);
            }
        }
        let cs = command.command.as_str();
        if str_eq(cs, "exit") {
            if np == 0 {
                CommandAction::Done(CommandState::Exit)
            } else {
                done_error("Usage: exit")
            }
        } else if str_eq(cs, "q") || str_eq(cs, "query") {
            if np == 1 {
                match self.get_query_url(params[0].as_str()) {
                    Ok(path) => {
                        let url = String::from_str(instance()).concat(path.as_str());
                        proof {
                            assert(instance_spec() + ("/search?q="@ + params@[0]@)
                                =~= instance_spec() + "/search?q="@ + params@[0]@);
                        }
                        CommandAction::Fetch(url)
                    },
                    Err(state) => CommandAction::Done(state),
                }
            } else {
                done_error("Usage: q(uery) [term]")
            }
        } else if str_eq(cs, "w") || str_eq(cs, "watch") {
            if np == 1 {
                self.handle_watch(params[0].as_str())
            } else {
                done_error("Usage: w(atch) [index]")
            }
        } else if str_eq(cs, "d") || str_eq(cs, "download") {
            if np == 1 {
                self.handle_download(params[0].as_str())
            } else {
                done_error("Usage: d(ownload) [index]")
            }
        } else if str_eq(cs, "h") || str_eq(cs, "help") {
            CommandAction::Done(CommandState::Output(Self::get_help()))
        } else {
            let mut msg = String::from_str("Unknown Command: ");
            msg.append(cs);
            msg.append("\n");
            msg.append(Self::get_help().as_str());
            CommandAction::Done(CommandState::Error(msg))
        }
    }

    /// Takes the outcome of the fetch that a `Fetch` action asked for.
    /// When the body arrives and its extraction succeeds, the whole
    /// entry list is replaced by exactly that extraction and its
    /// rendering returned; any failure leaves the list untouched and
    /// reports the error, so the previous list stays queryable.
    pub fn finish_query(&mut self, outcome: FetchOutcome) -> (r: CommandState)
        ensures
            !(outcome matches FetchOutcome::Body(_)) ==> final(self).current_content == old(
                self,
            ).current_content,
            outcome matches FetchOutcome::Status(code) ==> (r matches CommandState::Error(m) && m@
                == YoutubeError::RequestError(code).message_spec()),
            outcome matches FetchOutcome::Transport ==> (r matches CommandState::Error(m) && m@
                == "Transport Error"@),
            outcome matches FetchOutcome::ReadFailed(e) ==> (r matches CommandState::Error(m) && m@
                == "I/O Error: "@ + e@),
            outcome matches FetchOutcome::Body(b) ==> ({
                let extracted = extract_spec(b@);
                &&& (selectors_ok() && extracted is Some) ==> (r matches CommandState::Output(m)
                    && content_views(final(self).current_content@) == extracted->0 && m@
                    == render_spec(final(self).current_content@) && (forall|i: int|
                    0 <= i < final(self).current_content@.len() ==> entry_wf(
                        #[trigger] final(self).current_content@[i],
                    )))
                &&& !(selectors_ok() && extracted is Some) ==> (r matches CommandState::Error(m)
                    && crate::text::starts_with(m@, "Parse Error: "@)
                    && final(self).current_content == old(self).current_content)
            }),
    {
        match outcome {
            FetchOutcome::Body(body) => {
                match get_content(body.as_str()) {
                    Ok(content) => {
                        let formatted = print_content(&content);
                        self.current_content = content;
                        CommandState::Output(formatted)
                    },
                    Err(yt_err) => {
                        let msg = yt_err.message();
                        proof {
                            let reason = yt_err->ParseError_0;
                            assert(msg@ == "Parse Error: "@ + reason@);
                            assert(msg@.take("Parse Error: "@.len() as int) =~= "Parse Error: "@);
                        }
                        CommandState::Error(msg)
                    },
                }
            },
            FetchOutcome::Status(code) => CommandState::Error(
                YoutubeError::RequestError(code).message(),
            ),
            FetchOutcome::Transport => CommandState::Error(YoutubeError::TransportError.message()),
            FetchOutcome::ReadFailed(e) => CommandState::Error(YoutubeError::IOError(e).message()),
        }
    }
}

/// Takes the outcome of the launch that a `Launch` action asked for and
/// reports it the way the session does: a reaped child is quiet
/// success, and the failure messages depend on which program was meant.
pub fn finish_launch(kind: &LaunchKind, outcome: LaunchOutcome) -> (r: CommandState)
    ensures
        outcome matches LaunchOutcome::Completed ==> (r matches CommandState::Output(m) && m@
            == Seq::<char>::empty()),
        outcome matches LaunchOutcome::WaitFailed ==> (r matches CommandState::Error(m) && m@ == (
        if kind is Player {
            "mpv wasn't running"@
        } else {
            "yt-dlp wasn't running"@
        })),
        outcome matches LaunchOutcome::CouldNotStart(e) ==> (r matches CommandState::Error(m) && m@
            == (if kind is Player {
            "Cannot start mpv or vlc. Is one of them installed?"@
        } else {
            "Cannot start yt-dlp. Is it installed? "@ + e@
        })),
{
    match outcome {
        LaunchOutcome::Completed => CommandState::Output(String::new()),
        LaunchOutcome::WaitFailed => match kind {
            LaunchKind::Player => CommandState::Error(String::from_str("mpv wasn't running")),
            LaunchKind::Downloader => CommandState::Error(
                String::from_str("yt-dlp wasn't running"),
            ),
        },
        LaunchOutcome::CouldNotStart(e) => match kind {
            LaunchKind::Player => CommandState::Error(
                String::from_str("Cannot start mpv or vlc. Is one of them installed?"),
            ),
            LaunchKind::Downloader => CommandState::Error(
                String::from_str("Cannot start yt-dlp. Is it installed? ").concat(e.as_str()),
            ),
        },
    }
}

/// The candidate programs a `Player` launch tries, in order.
pub fn player_candidates() -> (v: Vec<String>)
    ensures
        v@.len() == 2,
        v@[0]@ == "mpv"@,
        v@[1]@ == "vlc"@,
{
    let mut v: Vec<String> = Vec::new();
    v.push(String::from_str("mpv"));
    v.push(String::from_str("vlc"));
    v
}

/// The program a `Downloader` launch runs.
pub fn downloader_program() -> (r: String)
    ensures
        r@ == "yt-dlp"@,
{
    String::from_str("yt-dlp")
}

/// The arguments a `Downloader` launch passes: the URL and the fixed
/// output-path template.
pub fn download_args(url: &str) -> (v: Vec<String>)
    ensures
        v@.len() == 3,
        v@[0]@ == url@,
        v@[1]@ == "-o"@,
        v@[2]@ == "~/.ytcli/download/%(uploader)s/%(title)s.%(ext)s"@,
{
    let mut v: Vec<String> = Vec::new();
    v.push(String::from_str(url));
    v.push(String::from_str("-o"));
    v.push(String::from_str("~/.ytcli/download/%(uploader)s/%(title)s.%(ext)s"));
    v
}

} // verus!
