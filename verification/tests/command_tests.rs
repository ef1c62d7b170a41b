use ytcli::command::{
    download_args, downloader_program, finish_launch, player_candidates, CommandAction,
    CommandParser, CommandState, FetchOutcome, LaunchKind, LaunchOutcome,
};

fn session_with(doc: &str) -> CommandParser {
    let mut parser = CommandParser::new();
    let state = parser.finish_query(FetchOutcome::Body(doc.to_string()));
    assert!(matches!(state, CommandState::Output(_)));
    parser
}

const CHANNEL_DOC: &str = "<div class=\"h-box\"><a href=\"/channel/xyz\"><p>Chan</p></a>\
                           <p>1K subscribers</p></div>";
const VIDEO_DOC: &str = "<div class=\"h-box\"><a href=\"/watch?v=x\"><p dir=\"auto\">T</p></a>\
                         </div>";
const PLAYLIST_DOC: &str = "<div class=\"h-box\"><a href=\"/playlist?list=1\"><p>Mix</p></a>\
                            <p class=\"length\">3 videos</p></div>";
const NAV_DOC: &str = "<div class=\"h-box\"><a href=\"/feed/popular\"></a></div>";

#[test]
fn tokenizes_quoted_parameter() {
    let parts = CommandParser::get_command_parts("q \"foo bar\"");
    assert_eq!(parts, vec!["q".to_string(), "foo bar".to_string()]);
}

#[test]
fn tokenizes_unterminated_quote_to_end_of_line() {
    let parts = CommandParser::get_command_parts("q \"foo bar");
    assert_eq!(parts, vec!["q".to_string(), "foo bar".to_string()]);
}

#[test]
fn tokenizes_double_space_into_empty_token() {
    let parts = CommandParser::get_command_parts("a  b");
    assert_eq!(parts, vec!["a".to_string(), "".to_string(), "b".to_string()]);
}

#[test]
fn parse_command_splits_name_and_params() {
    let parsed = CommandParser::parse_command("q \"foo bar\"").unwrap();
    assert_eq!(parsed.command, "q");
    assert_eq!(parsed.params, vec!["foo bar".to_string()]);
}

#[test]
fn empty_line_is_invalid_syntax() {
    let mut parser = CommandParser::new();
    let act = parser.handle_command("");
    assert_eq!(
        act,
        CommandAction::Done(CommandState::Error("Invalid Syntax".to_string()))
    );
}

#[test]
fn exit_terminates_and_rejects_parameters() {
    let mut parser = CommandParser::new();
    assert_eq!(parser.handle_command("exit"), CommandAction::Done(CommandState::Exit));
    assert_eq!(
        parser.handle_command("exit now"),
        CommandAction::Done(CommandState::Error("Usage: exit".to_string()))
    );
}

#[test]
fn help_returns_static_text() {
    let mut parser = CommandParser::new();
    match parser.handle_command("help") {
        CommandAction::Done(CommandState::Output(text)) => {
            assert!(text.starts_with("ytcli help:"));
        },
        other => panic!("expected help output, got {other:?}"),
    }
}

#[test]
fn unknown_command_reports_name_and_help() {
    let mut parser = CommandParser::new();
    match parser.handle_command("bogus") {
        CommandAction::Done(CommandState::Error(msg)) => {
            assert!(msg.starts_with("Unknown Command: bogus\n"));
            assert!(msg.contains("ytcli help:"));
        },
        other => panic!("expected an error, got {other:?}"),
    }
}

#[test]
fn query_text_term_becomes_fresh_search() {
    let parser = CommandParser::new();
    assert_eq!(parser.get_query_url("cats").unwrap(), "/search?q=cats");
}

#[test]
fn query_index_on_channel_follows_stored_link() {
    let parser = session_with(CHANNEL_DOC);
    assert_eq!(parser.get_query_url("0").unwrap(), "/channel/xyz");
}

#[test]
fn query_index_on_video_is_refused() {
    let parser = session_with(VIDEO_DOC);
    match parser.get_query_url("0") {
        Err(CommandState::Error(msg)) => {
            assert_eq!(msg, "Cannot query a video directly. Use w(atch) instead");
        },
        other => panic!("expected a resolution error, got {other:?}"),
    }
}

#[test]
fn query_index_out_of_range_is_refused() {
    let parser = session_with(CHANNEL_DOC);
    match parser.get_query_url("7") {
        Err(CommandState::Error(msg)) => assert_eq!(msg, "Index out of bounds!"),
        other => panic!("expected a resolution error, got {other:?}"),
    }
}

#[test]
fn query_command_builds_absolute_url() {
    let mut parser = session_with(CHANNEL_DOC);
    assert_eq!(
        parser.handle_command("q cats"),
        CommandAction::Fetch("https://yewtu.be/search?q=cats".to_string())
    );
    assert_eq!(
        parser.handle_command("q 0"),
        CommandAction::Fetch("https://yewtu.be/channel/xyz".to_string())
    );
    assert_eq!(
        parser.handle_command("query"),
        CommandAction::Done(CommandState::Error("Usage: q(uery) [term]".to_string()))
    );
}

#[test]
fn failed_query_leaves_content_unchanged() {
    let mut parser = session_with(VIDEO_DOC);
    let before = parser.current_content.clone();
    let state = parser.finish_query(FetchOutcome::Transport);
    assert_eq!(state, CommandState::Error("Transport Error".to_string()));
    assert_eq!(parser.current_content, before);
    // the prior list is still resolvable afterwards
    match parser.handle_command("w 0") {
        CommandAction::Launch(LaunchKind::Player, url) => {
            assert_eq!(url, "https://yewtu.be/watch?v=x");
        },
        other => panic!("expected a player launch, got {other:?}"),
    }
}

#[test]
fn failed_extraction_leaves_content_unchanged() {
    let mut parser = session_with(CHANNEL_DOC);
    let before = parser.current_content.clone();
    let bad = "<div class=\"h-box\"><a href=\"/playlist?list=1\"><p>Mix</p></a>\
               <p class=\"length\">abc videos</p></div>";
    let state = parser.finish_query(FetchOutcome::Body(bad.to_string()));
    assert_eq!(state, CommandState::Error("Parse Error: invalid number".to_string()));
    assert_eq!(parser.current_content, before);
}

#[test]
fn status_and_read_failures_are_reported() {
    let mut parser = CommandParser::new();
    assert_eq!(
        parser.finish_query(FetchOutcome::Status(404)),
        CommandState::Error("Request failed with code 404".to_string())
    );
    assert_eq!(
        parser.finish_query(FetchOutcome::ReadFailed("boom".to_string())),
        CommandState::Error("I/O Error: boom".to_string())
    );
}

#[test]
fn successful_query_replaces_content_and_renders() {
    let mut parser = session_with(CHANNEL_DOC);
    let state = parser.finish_query(FetchOutcome::Body(VIDEO_DOC.to_string()));
    match state {
        CommandState::Output(text) => {
            assert_eq!(text, "[0] T by Unknown Author | 0 Views [0:00] [/watch?v=x]");
        },
        other => panic!("expected rendered output, got {other:?}"),
    }
    assert_eq!(parser.current_content.len(), 1);
}

#[test]
fn watch_playlist_is_refused_without_launch() {
    let mut parser = session_with(PLAYLIST_DOC);
    let act = parser.handle_command("w 0");
    assert_eq!(
        act,
        CommandAction::Done(
            CommandState::Error("Cannot watch Channel or Playlist directly".to_string())
        )
    );
}

#[test]
fn watch_navigation_and_unknown_are_refused() {
    let mut parser = session_with(NAV_DOC);
    assert_eq!(
        parser.handle_command("w 0"),
        CommandAction::Done(
            CommandState::Error("Cannot watch navigational Content".to_string())
        )
    );
}

#[test]
fn watch_bad_indices_are_refused() {
    let mut parser = session_with(VIDEO_DOC);
    assert_eq!(
        parser.handle_command("w abc"),
        CommandAction::Done(CommandState::Error("Not a Number!".to_string()))
    );
    assert_eq!(
        parser.handle_command("w 5"),
        CommandAction::Done(CommandState::Error("Index out of bounds!".to_string()))
    );
    assert_eq!(
        parser.handle_command("watch"),
        CommandAction::Done(CommandState::Error("Usage: w(atch) [index]".to_string()))
    );
}

#[test]
fn download_dispatches_by_entry_type() {
    let mut parser = session_with(CHANNEL_DOC);
    assert_eq!(
        parser.handle_command("d 0"),
        CommandAction::Launch(LaunchKind::Downloader, "https://yewtu.be/channel/xyz".to_string())
    );
    let mut parser = session_with(NAV_DOC);
    assert_eq!(
        parser.handle_command("d 0"),
        CommandAction::Done(
            CommandState::Error("Cannot download navigational Content".to_string())
        )
    );
    assert_eq!(
        parser.handle_command("download 0 extra"),
        CommandAction::Done(CommandState::Error("Usage: d(ownload) [index]".to_string()))
    );
}

#[test]
fn launch_outcomes_map_to_session_messages() {
    assert_eq!(
        finish_launch(&LaunchKind::Player, LaunchOutcome::Completed),
        CommandState::Output(String::new())
    );
    assert_eq!(
        finish_launch(&LaunchKind::Player, LaunchOutcome::WaitFailed),
        CommandState::Error("mpv wasn't running".to_string())
    );
    assert_eq!(
        finish_launch(&LaunchKind::Player, LaunchOutcome::CouldNotStart("no".to_string())),
        CommandState::Error("Cannot start mpv or vlc. Is one of them installed?".to_string())
    );
    assert_eq!(
        finish_launch(&LaunchKind::Downloader, LaunchOutcome::WaitFailed),
        CommandState::Error("yt-dlp wasn't running".to_string())
    );
    assert_eq!(
        finish_launch(&LaunchKind::Downloader, LaunchOutcome::CouldNotStart("boom".to_string())),
        CommandState::Error("Cannot start yt-dlp. Is it installed? boom".to_string())
    );
}

#[test]
fn launch_plans_name_the_fixed_programs() {
    assert_eq!(player_candidates(), vec!["mpv".to_string(), "vlc".to_string()]);
    assert_eq!(downloader_program(), "yt-dlp");
    assert_eq!(
        download_args("https://yewtu.be/watch?v=x"),
        vec![
            "https://yewtu.be/watch?v=x".to_string(),
            "-o".to_string(),
            "~/.ytcli/download/%(uploader)s/%(title)s.%(ext)s".to_string(),
        ]
    );
}
