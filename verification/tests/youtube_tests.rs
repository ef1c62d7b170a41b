use ytcli::youtube::{get_content, print_content, Content, YoutubeError};

fn video_card(href: &str, title: &str, author: &str, length: &str, views: &str) -> String {
    format!(
        "<div class=\"h-box\"><a href=\"{href}\"><p dir=\"auto\">{title}</p></a>\
         <p class=\"channel-name\">{author}</p><p class=\"length\">{length}</p>\
         <div class=\"flex-right\"><p class=\"video-data\">{views}</p></div></div>"
    )
}

#[test]
fn extracts_minimal_video_with_defaults() {
    let doc = "<div class=\"h-box\"><a href=\"/watch?v=x\"><p dir=\"auto\">T</p></a>\
               <p class=\"channel-name\">A</p></div>";
    let content = get_content(doc).unwrap();
    assert_eq!(content.len(), 1);
    match &content[0] {
        Content::Video(v) => {
            assert_eq!(v.link, "/watch?v=x");
            assert_eq!(v.title, "T");
            assert_eq!(v.author, "A");
            assert_eq!(v.length, "0:00");
            assert_eq!(v.views, 0);
        },
        other => panic!("expected a video entry, got {other:?}"),
    }
}

#[test]
fn extracts_full_video_card() {
    let doc = video_card("/watch?v=abc", "My Title", "Author", "10:23", "3.2M views");
    let content = get_content(&doc).unwrap();
    assert_eq!(content.len(), 1);
    match &content[0] {
        Content::Video(v) => {
            assert_eq!(v.title, "My Title");
            assert_eq!(v.author, "Author");
            assert_eq!(v.length, "10:23");
            assert_eq!(v.views, 3200000);
        },
        other => panic!("expected a video entry, got {other:?}"),
    }
}

#[test]
fn extracts_channel_card() {
    let doc = "<div class=\"h-box\"><a href=\"/channel/abc\"><p>ChanName</p></a>\
               <p>1.5K subscribers</p></div>";
    let content = get_content(doc).unwrap();
    assert_eq!(content.len(), 1);
    match &content[0] {
        Content::Channel(c) => {
            assert_eq!(c.link, "/channel/abc");
            assert_eq!(c.name, "ChanName");
            assert_eq!(c.subscribers, 1500);
        },
        other => panic!("expected a channel entry, got {other:?}"),
    }
}

#[test]
fn extracts_playlist_card() {
    let doc = "<div class=\"h-box\"><a href=\"/playlist?list=1\"><p>Mix</p></a>\
               <p class=\"length\">12 videos</p></div>";
    let content = get_content(doc).unwrap();
    assert_eq!(content.len(), 1);
    match &content[0] {
        Content::Playlist(p) => {
            assert_eq!(p.link, "/playlist?list=1");
            assert_eq!(p.name, "Mix");
            assert_eq!(p.length, 12);
        },
        other => panic!("expected a playlist entry, got {other:?}"),
    }
}

#[test]
fn malformed_playlist_count_fails_whole_extraction() {
    let doc = "<div class=\"h-box\"><a href=\"/playlist?list=1\"><p>Mix</p></a>\
               <p class=\"length\">abc videos</p></div>";
    assert!(matches!(get_content(doc), Err(YoutubeError::ParseError(_))));
}

#[test]
fn malformed_view_count_fails_whole_extraction() {
    let doc = video_card("/watch?v=abc", "T", "A", "1:00", "xyz views");
    assert!(matches!(get_content(&doc), Err(YoutubeError::ParseError(_))));
}

#[test]
fn card_without_link_is_skipped() {
    let doc = "<div class=\"h-box\"><p>just an ad</p></div>\
               <div class=\"h-box\"><a href=\"/feed/popular\"></a></div>";
    let content = get_content(doc).unwrap();
    assert_eq!(content.len(), 1);
    assert!(matches!(&content[0], Content::Navigation(n) if n.link == "/feed/popular"));
}

#[test]
fn external_link_is_unknown() {
    let doc = "<div class=\"h-box\"><a href=\"https://elsewhere.example\"></a></div>";
    let content = get_content(doc).unwrap();
    assert_eq!(content.len(), 1);
    assert!(matches!(&content[0], Content::Unknown));
}

#[test]
fn video_url_is_absolute() {
    let doc = video_card("/watch?v=abc", "T", "A", "1:00", "10 views");
    let content = get_content(&doc).unwrap();
    match &content[0] {
        Content::Video(v) => assert_eq!(v.get_url(), "https://yewtu.be/watch?v=abc"),
        other => panic!("expected a video entry, got {other:?}"),
    }
}

#[test]
fn renders_video_line_text() {
    let doc = video_card("/watch?v=abc", "My Title", "Author", "10:23", "3.2M views");
    let content = get_content(&doc).unwrap();
    let out = print_content(&content);
    assert_eq!(out, "[0] My Title by Author | 3.20 M Views [10:23] [/watch?v=abc]");
}

#[test]
fn renders_in_reverse_order() {
    let mut doc = video_card("/watch?v=a", "First", "A", "1:00", "10 views");
    doc.push_str(&video_card("/watch?v=b", "Second", "B", "2:00", "20 views"));
    doc.push_str(&video_card("/watch?v=c", "Third", "C", "3:00", "30 views"));
    let content = get_content(&doc).unwrap();
    assert_eq!(content.len(), 3);
    let out = print_content(&content);
    let lines: Vec<&str> = out.lines().collect();
    assert_eq!(lines.len(), 3);
    assert!(lines[0].starts_with("[2] Third"));
    assert!(lines[1].starts_with("[1] Second"));
    assert!(lines[2].starts_with("[0] First"));
}

#[test]
fn renders_empty_list_as_empty_text() {
    let content: Vec<Content> = vec![];
    assert_eq!(print_content(&content), "");
}

#[test]
fn linkless_card_does_not_shift_following_indices() {
    let mut doc = video_card("/watch?v=a", "First", "A", "1:00", "10 views");
    doc.push_str("<div class=\"h-box\"><p>just an ad</p></div>");
    doc.push_str(&video_card("/watch?v=b", "Second", "B", "2:00", "20 views"));
    let content = get_content(&doc).unwrap();
    assert_eq!(content.len(), 2);
    assert!(matches!(&content[0], Content::Video(v) if v.title == "First"));
    assert!(matches!(&content[1], Content::Video(v) if v.title == "Second"));
}
