//! The content model: typed entries extracted from a search-results
//! document, the error taxonomy of a query, and the textual rendering of
//! a result list.

use vstd::prelude::*;
use crate::format::{format_spec, parse, parse_spec};
use crate::scrape::{card_hrefs_of, card_text, card_text_of, collect_card_hrefs, parse_selector,
    sel_ok};
use crate::text::{all_digits, dec_digits_of, digits_val, first_space_idx, first_token, opt_view,
    opt_str_views, parse_dec_bounded, starts_with, str_starts_with, u64_to_string};

verus! {

/// Everything that can go wrong while fetching and extracting a result
/// page: a non-2xx response, a connection-level failure, a failure while
/// reading the body, or malformed numeric text / an invalid selector.
#[derive(Debug)]
pub enum YoutubeError {
    RequestError(u16),
    TransportError,
    IOError(String),
    ParseError(String),
}

impl YoutubeError {
    /// The human-readable description of the error.
    pub open spec fn message_spec(&self) -> Seq<char> {
        match self {
            YoutubeError::RequestError(code) => "Request failed with code "@ + dec_digits_of(
                *code as nat,
            ),
            YoutubeError::IOError(err) => "I/O Error: "@ + err@,
            YoutubeError::TransportError => "Transport Error"@,
            YoutubeError::ParseError(reason) => "Parse Error: "@ + reason@,
        }
    }

    /// Renders the error for display, one line without a line break.
    pub fn message(&self) -> (r: String)
        ensures
            r@ == self.message_spec(),
    {
        match self {
            YoutubeError::RequestError(code) => {
                let mut s = String::from_str("Request failed with code ");
                s.append(u64_to_string(*code as u64).as_str());
                s
            },
            YoutubeError::IOError(err) => String::from_str("I/O Error: ").concat(err.as_str()),
            YoutubeError::TransportError => String::from_str("Transport Error"),
            YoutubeError::ParseError(reason) => String::from_str("Parse Error: ").concat(
                reason.as_str(),
            ),
        }
    }
}


/// The fixed mirror every request is templated against.
pub open spec fn instance_spec() -> Seq<char> {
    "https://yewtu.be"@
}

/// The mirror's base URL.
pub fn instance() -> (r: &'static str)
    ensures
        r@ == instance_spec(),
{
    "https://yewtu.be"
}

#[derive(Clone, Debug, PartialEq)]
pub struct VideoData {
    pub link: String,
    pub title: String,
    pub author: String,
    pub views: u64,
    pub length: String,
}

impl VideoData {
    /// The absolute URL of the video: the instance base followed by the
    /// stored relative link.
    pub fn get_url(&self) -> (r: String)
        ensures
            r@ == instance_spec() + self.link@,
    {
        String::from_str(instance()).concat(self.link.as_str())
    }
}

#[derive(Clone, Debug, PartialEq)]
pub struct ChannelData {
    pub link: String,
    pub name: String,
    pub subscribers: u64,
}

#[derive(Clone, Debug, PartialEq)]
pub struct PlaylistData {
    pub link: String,
    pub name: String,
    pub length: u16,
}

#[derive(Clone, Debug, PartialEq)]
pub struct NavigationData {
    pub link: String,
}

/// One classified search result: a video, a channel, a playlist, an
/// internal navigation link, or something unclassifiable.
#[derive(Clone, Debug, PartialEq)]
pub enum Content {
    Video(VideoData),
    Channel(ChannelData),
    Playlist(PlaylistData),
    Navigation(NavigationData),
    Unknown,
}

impl Content {
    /// The relative link stored in the entry; an unclassifiable entry
    /// stores none and yields the empty path.
    pub open spec fn link_spec(&self) -> Seq<char> {
        match self {
            Content::Video(v) => v.link@,
            Content::Channel(c) => c.link@,
            Content::Playlist(p) => p.link@,
            Content::Navigation(n) => n.link@,
            Content::Unknown => Seq::empty(),
        }
    }

    pub fn get_link(&self) -> (r: String)
        ensures
            r@ == self.link_spec(),
    {
        match self {
            Content::Video(v) => v.link.clone(),
            Content::Channel(c) => c.link.clone(),
            Content::Playlist(p) => p.link.clone(),
            Content::Navigation(n) => n.link.clone(),
            Content::Unknown => String::new(),
        }
    }

    /// The absolute URL of the entry: the instance base followed by the
    /// stored relative link.
    pub fn get_url(&self) -> (r: String)
        ensures
            r@ == instance_spec() + self.link_spec(),
    {
        String::from_str(instance()).concat(self.get_link().as_str())
    }
}

/// What extraction guarantees of every entry it returns: the stored
/// link begins with the path prefix the entry was classified by.
pub open spec fn entry_wf(c: Content) -> bool {
    match c {
        Content::Video(v) => starts_with(v.link@, "/watch"@),
        Content::Playlist(p) => starts_with(p.link@, "/playlist"@),
        Content::Channel(ch) => starts_with(ch.link@, "/channel"@),
        Content::Navigation(n) => starts_with(n.link@, "/"@) && !starts_with(n.link@, "/watch"@)
            && !starts_with(n.link@, "/playlist"@) && !starts_with(n.link@, "/channel"@),
        Content::Unknown => true,
    }
}

/// A textual field with its fixed fallback: the extracted text if the
/// markup offered one, the placeholder otherwise.
pub open spec fn text_or(o: Option<Seq<char>>, d: Seq<char>) -> Seq<char> {
    match o {
        Some(s) => s,
        None => d,
    }
}

/// The leading space-separated token of a count text with its fallback,
/// which is what is handed to the quantity parser.
pub open spec fn token_of(o: Option<Seq<char>>, d: Seq<char>) -> Seq<char> {
    let t = text_or(o, d);
    t.take(first_space_idx(t))
}

/// `text_or` over an owned optional field.
pub open spec fn or_default(o: Option<String>, d: Seq<char>) -> Seq<char> {
    text_or(opt_view(o), d)
}

/// `token_of` over an owned optional field.
pub open spec fn count_token(o: Option<String>, d: Seq<char>) -> Seq<char> {
    token_of(opt_view(o), d)
}

fn field_or(o: Option<String>, d: &str) -> (r: String)
    ensures
        r@ == or_default(o, d@),
{
    match o {
        Some(s) => s,
        None => String::from_str(d),
    }
}

/// Builds a video entry from its extracted fields: missing textual
/// fields fall back to fixed placeholders, while the leading token of
/// the view-count text must parse as an abbreviated count — a malformed
/// count fails the whole extraction.
pub fn build_video(
    link: &str,
    title: Option<String>,
    author: Option<String>,
    length: Option<String>,
    views_text: Option<String>,
) -> (r: Result<Content, YoutubeError>)
    ensures
        (r is Ok) == (parse_spec(count_token(views_text, "0 views"@)) is Some),
        r is Err ==> r->Err_0 is ParseError,
        r is Ok ==> (r->Ok_0 matches Content::Video(v) && v.link@ == link@ && v.title@
            == or_default(title, "Unknown Title"@) && v.author@ == or_default(
            author,
            "Unknown Author"@,
        ) && v.length@ == or_default(length, "0:00"@) && v.views == parse_spec(
            count_token(views_text, "0 views"@),
        )->0),
{
    let title_s = field_or(title, "Unknown Title");
    let author_s = field_or(author, "Unknown Author");
    let length_s = field_or(length, "0:00");
    let vt = field_or(views_text, "0 views");
    let tok = first_token(vt.as_str());
    match parse(tok) {
        Ok(views) => Ok(
            Content::Video(
                VideoData {
                    link: String::from_str(link),
                    title: title_s,
                    author: author_s,
                    length: length_s,
                    views,
                },
            ),
        ),
        Err(e) => Err(e),
    }
}

/// Builds a channel entry: a missing name falls back to its
/// placeholder, and the leading token of the subscriber text must parse
/// as an abbreviated count.
pub fn build_channel(link: &str, name: Option<String>, subs_text: Option<String>) -> (r: Result<
    Content,
    YoutubeError,
>)
    ensures
        (r is Ok) == (parse_spec(count_token(subs_text, "0 subscribers"@)) is Some),
        r is Err ==> r->Err_0 is ParseError,
        r is Ok ==> (r->Ok_0 matches Content::Channel(c) && c.link@ == link@ && c.name@
            == or_default(name, "Unknown Channel"@) && c.subscribers == parse_spec(
            count_token(subs_text, "0 subscribers"@),
        )->0),
{
    let name_s = field_or(name, "Unknown Channel");
    let st = field_or(subs_text, "0 subscribers");
    let tok = first_token(st.as_str());
    match parse(tok) {
        Ok(subscribers) => Ok(
            Content::Channel(
                ChannelData { link: String::from_str(link), name: name_s, subscribers },
            ),
        ),
        Err(e) => Err(e),
    }
}

/// Whether a token is a plain decimal video count that fits the
/// playlist length field.
pub open spec fn plain_u16(tok: Seq<char>) -> bool {
    tok.len() > 0 && all_digits(tok) && digits_val(tok) <= u16::MAX
}

/// Builds a playlist entry: a missing name falls back to its
/// placeholder, and the leading token of the count text must be a plain
/// decimal number — it does not go through the abbreviated-count
/// parser.
pub fn build_playlist(link: &str, name: Option<String>, count_text: Option<String>) -> (r: Result<
    Content,
    YoutubeError,
>)
    ensures
        (r is Ok) == plain_u16(count_token(count_text, "0 videos"@)),
        r is Err ==> r->Err_0 is ParseError,
        r is Ok ==> (r->Ok_0 matches Content::Playlist(p) && p.link@ == link@ && p.name@
            == or_default(name, "Unknown Playlist"@) && p.length == digits_val(
            count_token(count_text, "0 videos"@),
        )),
{
    let name_s = field_or(name, "Unknown Playlist");
    let ct = field_or(count_text, "0 videos");
    let tok = first_token(ct.as_str());
    match parse_dec_bounded(tok, 65535) {
        Some(count) => Ok(
            Content::Playlist(
                PlaylistData {
                    link: String::from_str(link),
                    name: name_s,
                    length: count as u16,
                },
            ),
        ),
        None => Err(YoutubeError::ParseError(String::from_str("invalid number"))),
    }
}

/// The structural selector that picks out one result card.
pub open spec fn card_sel() -> Seq<char> {
    "div.h-box"@
}

/// The selector for a card's first anchor, whose href classifies it.
pub open spec fn link_sel() -> Seq<char> {
    "a:first-child"@
}

pub open spec fn title_sel() -> Seq<char> {
    "a:first-child > p[dir=\"auto\"]"@
}

pub open spec fn author_sel() -> Seq<char> {
    "p.channel-name"@
}

pub open spec fn length_sel() -> Seq<char> {
    "p.length"@
}

pub open spec fn views_sel() -> Seq<char> {
    "div.flex-right > p.video-data"@
}

pub open spec fn name_sel() -> Seq<char> {
    "a:first-child > p"@
}

pub open spec fn subs_sel() -> Seq<char> {
    "a~p"@
}

/// Whether every fixed selector the extractor uses compiles; an invalid
/// one fails the whole call.
pub open spec fn selectors_ok() -> bool {
    sel_ok(card_sel()) && sel_ok(link_sel()) && sel_ok(title_sel()) && sel_ok(author_sel())
        && sel_ok(length_sel()) && sel_ok(views_sel()) && sel_ok(name_sel()) && sel_ok(subs_sel())
}

/// The named per-card field lookup: the first text under the first
/// `sel` match inside card `i`.
pub open spec fn field_of(doc: Seq<char>, i: int, sel: Seq<char>) -> Option<Seq<char>> {
    card_text_of(doc, card_sel(), i, sel)
}

/// The named first-anchor hrefs of the document's cards, in document
/// order.
pub open spec fn hrefs_of(doc: Seq<char>) -> Seq<Option<Seq<char>>> {
    card_hrefs_of(doc, card_sel(), link_sel())
}

/// The view of one entry: each field as its mathematical value.
pub enum ContentView {
    Video { link: Seq<char>, title: Seq<char>, author: Seq<char>, views: u64, length: Seq<char> },
    Channel { link: Seq<char>, name: Seq<char>, subscribers: u64 },
    Playlist { link: Seq<char>, name: Seq<char>, count: u16 },
    Navigation { link: Seq<char> },
    Unknown,
}

pub open spec fn view_of(c: Content) -> ContentView {
    match c {
        Content::Video(v) => ContentView::Video {
            link: v.link@,
            title: v.title@,
            author: v.author@,
            views: v.views,
            length: v.length@,
        },
        Content::Channel(ch) => ContentView::Channel {
            link: ch.link@,
            name: ch.name@,
            subscribers: ch.subscribers,
        },
        Content::Playlist(p) => ContentView::Playlist {
            link: p.link@,
            name: p.name@,
            count: p.length,
        },
        Content::Navigation(n) => ContentView::Navigation { link: n.link@ },
        Content::Unknown => ContentView::Unknown,
    }
}

pub open spec fn content_views(s: Seq<Content>) -> Seq<ContentView> {
    s.map_values(|c: Content| view_of(c))
}

/// What the card with first-anchor href `h` must become: classified by
/// href prefix in priority order, its fields the named per-card texts
/// with their fixed fallbacks; nothing when its count text does not
/// parse, which fails the whole extraction.
pub open spec fn card_view(doc: Seq<char>, i: int, h: Seq<char>) -> Option<ContentView> {
    if starts_with(h, "/watch"@) {
        match parse_spec(token_of(field_of(doc, i, views_sel()), "0 views"@)) {
            Some(v) => Some(
                ContentView::Video {
                    link: h,
                    title: text_or(field_of(doc, i, title_sel()), "Unknown Title"@),
                    author: text_or(field_of(doc, i, author_sel()), "Unknown Author"@),
                    views: v,
                    length: text_or(field_of(doc, i, length_sel()), "0:00"@),
                },
            ),
            None => None,
        }
    } else if starts_with(h, "/playlist"@) {
        let tok = token_of(field_of(doc, i, length_sel()), "0 videos"@);
        if plain_u16(tok) {
            Some(
                ContentView::Playlist {
                    link: h,
                    name: text_or(field_of(doc, i, name_sel()), "Unknown Playlist"@),
                    count: digits_val(tok) as u16,
                },
            )
        } else {
            None
        }
    } else if starts_with(h, "/channel"@) {
        match parse_spec(token_of(field_of(doc, i, subs_sel()), "0 subscribers"@)) {
            Some(v) => Some(
                ContentView::Channel {
                    link: h,
                    name: text_or(field_of(doc, i, name_sel()), "Unknown Channel"@),
                    subscribers: v,
                },
            ),
            None => None,
        }
    } else if starts_with(h, "/"@) {
        Some(ContentView::Navigation { link: h })
    } else {
        Some(ContentView::Unknown)
    }
}

/// The extraction of the document's first `n` cards: one entry per
/// href-bearing card, in document order, a card without an href skipped
/// silently, and nothing as soon as any card's count text fails.
pub open spec fn extract_upto(doc: Seq<char>, n: int) -> Option<Seq<ContentView>>
    decreases n,
{
    if n <= 0 {
        Some(Seq::empty())
    } else {
        match extract_upto(doc, n - 1) {
            None => None,
            Some(prefix) => match hrefs_of(doc)[n - 1] {
                None => Some(prefix),
                Some(h) => match card_view(doc, n - 1, h) {
                    None => None,
                    Some(e) => Some(prefix.push(e)),
                },
            },
        }
    }
}

/// The extraction of the whole document, over the named scraper
/// results.
pub open spec fn extract_spec(doc: Seq<char>) -> Option<Seq<ContentView>> {
    extract_upto(doc, hrefs_of(doc).len() as int)
}

/// Once a card has failed, every longer prefix of the document fails
/// too.
proof fn lemma_extract_none_sticks(doc: Seq<char>, n: int, m: int)
    requires
        0 <= n <= m,
        extract_upto(doc, n) is None,
    ensures
        extract_upto(doc, m) is None,
    decreases m,
{
    if m > n {
        lemma_extract_none_sticks(doc, n, m - 1);
    }
}

/// Extracts the typed, ordered entry list from a search-results
/// document: one entry per card whose first anchor carries an href, in
/// document order, each classified by its href's prefix and built from
/// the named per-card texts, exactly as `extract_spec` states; a card
/// without an href is skipped silently, and the call fails with a
/// `ParseError` exactly when one of the fixed selectors does not
/// compile or a card's count text does not parse.
pub fn get_content(document: &str) -> (r: Result<Vec<Content>, YoutubeError>)
    ensures
        (r is Ok) == (selectors_ok() && extract_spec(document@) is Some),
        r is Ok ==> content_views(r->Ok_0@) == extract_spec(document@)->0,
        r is Ok ==> forall|i: int|
            0 <= i < r->Ok_0@.len() ==> entry_wf(#[trigger] r->Ok_0@[i]),
        r is Err ==> r->Err_0 is ParseError,
{
    if let Err(e) = parse_selector("div.h-box") {
        return Err(YoutubeError::ParseError(e));
    }
    if let Err(e) = parse_selector("a:first-child") {
        return Err(YoutubeError::ParseError(e));
    }
    if let Err(e) = parse_selector("a:first-child > p[dir=\"auto\"]") {
        return Err(YoutubeError::ParseError(e));
    }
    if let Err(e) = parse_selector("p.channel-name") {
        return Err(YoutubeError::ParseError(e));
    }
    if let Err(e) = parse_selector("p.length") {
        return Err(YoutubeError::ParseError(e));
    }
    if let Err(e) = parse_selector("div.flex-right > p.video-data") {
        return Err(YoutubeError::ParseError(e));
    }
    if let Err(e) = parse_selector("a:first-child > p") {
        return Err(YoutubeError::ParseError(e));
    }
    if let Err(e) = parse_selector("a~p") {
        return Err(YoutubeError::ParseError(e));
    }
    let hrefs = collect_card_hrefs(document, "div.h-box", "a:first-child");
    proof {
        assert(opt_str_views(hrefs@).len() == hrefs@.len());
        assert(extract_upto(document@, 0) == Some(Seq::<ContentView>::empty()));
    }
    let ghost total = hrefs_of(document@).len() as int;
    let mut content: Vec<Content> = Vec::new();
    let mut idx: usize = 0;
    proof {
        assert(content_views(content@) =~= Seq::<ContentView>::empty());
    }
    while idx < hrefs.len()
        invariant
            selectors_ok(),
            opt_str_views(hrefs@) == hrefs_of(document@),
            hrefs@.len() == hrefs_of(document@).len(),
            total == hrefs_of(document@).len() as int,
            0 <= idx <= hrefs@.len(),
            extract_upto(document@, idx as int) is Some,
            content_views(content@) == extract_upto(document@, idx as int)->0,
            forall|i: int| 0 <= i < content@.len() ==> entry_wf(#[trigger] content@[i]),
        decreases hrefs@.len() - idx,
    {
        proof {
            assert(opt_str_views(hrefs@)[idx as int] == opt_view(hrefs@[idx as int]));
        }
        match &hrefs[idx] {
            None => {
                proof {
                    assert(hrefs_of(document@)[idx as int] is None);
                }
            },
            Some(h) => {
                proof {
                    assert(hrefs_of(document@)[idx as int] == Some(h@));
                }
                let entry = if str_starts_with(h.as_str(), "/watch") {
                    let title = card_text(document, "div.h-box", idx,
                        "a:first-child > p[dir=\"auto\"]");
                    let author = card_text(document, "div.h-box", idx, "p.channel-name");
                    let length = card_text(document, "div.h-box", idx, "p.length");
                    let views = card_text(document, "div.h-box", idx,
                        "div.flex-right > p.video-data");
                    match build_video(h.as_str(), title, author, length, views) {
                        Ok(c) => c,
                        Err(e) => {
                            proof {
                                assert(card_view(document@, idx as int, h@) is None);
                                assert(extract_upto(document@, idx + 1) is None);
                                lemma_extract_none_sticks(document@, idx + 1, total);
                            }
                            return Err(e);
                        },
                    }
                } else if str_starts_with(h.as_str(), "/playlist") {
                    let name = card_text(document, "div.h-box", idx, "a:first-child > p");
                    let count = card_text(document, "div.h-box", idx, "p.length");
                    match build_playlist(h.as_str(), name, count) {
                        Ok(c) => c,
                        Err(e) => {
                            proof {
                                assert(card_view(document@, idx as int, h@) is None);
                                assert(extract_upto(document@, idx + 1) is None);
                                lemma_extract_none_sticks(document@, idx + 1, total);
                            }
                            return Err(e);
                        },
                    }
                } else if str_starts_with(h.as_str(), "/channel") {
                    let name = card_text(document, "div.h-box", idx, "a:first-child > p");
                    let subs = card_text(document, "div.h-box", idx, "a~p");
                    match build_channel(h.as_str(), name, subs) {
                        Ok(c) => c,
                        Err(e) => {
                            proof {
                                assert(card_view(document@, idx as int, h@) is None);
                                assert(extract_upto(document@, idx + 1) is None);
                                lemma_extract_none_sticks(document@, idx + 1, total);
                            }
                            return Err(e);
                        },
                    }
                } else if str_starts_with(h.as_str(), "/") {
                    Content::Navigation(NavigationData { link: h.clone() })
                } else {
                    Content::Unknown
                };
                proof {
                    assert(card_view(document@, idx as int, h@) == Some(view_of(entry)));
                    assert(entry_wf(entry));
                }
                let ghost before = content@;
                content.push(entry);
                proof {
                    assert(content_views(content@) =~= content_views(before).push(view_of(entry)));
                }
            },
        }
        idx += 1;
    }
    proof {
        assert(extract_spec(document@) == extract_upto(document@, idx as int));
    }
    Ok(content)
}

/// The display line of one entry, without its index prefix.
pub open spec fn line_spec(c: Content) -> Seq<char> {
    match c {
        Content::Video(v) => v.title@ + " by "@ + v.author@ + " | "@ + format_spec(v.views)
            + " Views ["@ + v.length@ + "] ["@ + v.link@ + "]"@,
        Content::Channel(ch) => ch.name@ + " ["@ + format_spec(ch.subscribers)
            + " Subscribers] ["@ + ch.link@ + "]"@,
        Content::Playlist(p) => p.name@ + " ["@ + dec_digits_of(p.length as nat) + " Videos] ["@
            + p.link@ + "]"@,
        Content::Navigation(n) => n.link@,
        Content::Unknown => "Unknown Content"@,
    }
}

/// The rendering of a whole result list: one line per entry, indexed
/// from zero, emitted in reverse order, so the last entry's line comes
/// first and entry zero's line comes last and carries no line break.
pub open spec fn render_spec(s: Seq<Content>) -> Seq<char>
    decreases s.len(),
{
    if s.len() == 0 {
        Seq::empty()
    } else {
        let i = s.len() - 1;
        "["@ + dec_digits_of(i as nat) + "] "@ + line_spec(s.last()) + (if i == 0 {
            Seq::<char>::empty()
        } else {
            "\n"@
        }) + render_spec(s.drop_last())
    }
}

fn content_line(c: &Content) -> (r: String)
    ensures
        r@ == line_spec(*c),
{
    match c {
        Content::Video(v) => {
            let mut s = v.title.clone();
            s.append(" by ");
            s.append(v.author.as_str());
            s.append(" | ");
            s.append(crate::format::format(v.views).as_str());
            s.append(" Views [");
            s.append(v.length.as_str());
            s.append("] [");
            s.append(v.link.as_str());
            s.append("]");
            s
        },
        Content::Channel(ch) => {
            let mut s = ch.name.clone();
            s.append(" [");
            s.append(crate::format::format(ch.subscribers).as_str());
            s.append(" Subscribers] [");
            s.append(ch.link.as_str());
            s.append("]");
            s
        },
        Content::Playlist(p) => {
            let mut s = p.name.clone();
            s.append(" [");
            s.append(u64_to_string(p.length as u64).as_str());
            s.append(" Videos] [");
            s.append(p.link.as_str());
            s.append("]");
            s
        },
        Content::Navigation(n) => n.link.clone(),
        Content::Unknown => String::from_str("Unknown Content"),
    }
}

/// Renders a result list for display: entry lines in reverse order, as
/// `render_spec` states, so the most recently appended entry sits next
/// to the prompt.
pub fn print_content(videos: &Vec<Content>) -> (r: String)
    ensures
        r@ == render_spec(videos@),
{
    let mut result = String::new();
    let mut index: usize = 0;
    while index < videos.len()
        invariant
            index <= videos@.len(),
            result@ == render_spec(videos@.take(index as int)),
        decreases videos@.len() - index,
    {
        let mut line = String::from_str("[");
        line.append(u64_to_string(index as u64).as_str());
        line.append("] ");
        line.append(content_line(&videos[index]).as_str());
        if index != 0 {
            line.append("\n");
        }
        let appended = line.concat(result.as_str());
        proof {
            assert(videos@.take(index + 1).drop_last() =~= videos@.take(index as int));
            assert(videos@.take(index + 1).last() == videos@[index as int]);
        }
        result = appended;
        index += 1;
    }
    proof {
        assert(videos@.take(videos@.len() as int) =~= videos@);
    }
    result
}

} // verus!
