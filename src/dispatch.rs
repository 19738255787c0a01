//! What a live message asks of the bot, decided from its text alone.

use vstd::prelude::*;
use crate::text::{contains_seq, text_contains};

verus! {

/// What a message asks for; the first that applies wins, in this order.
#[derive(Clone, Debug, PartialEq, Eq)]
pub enum Command {
    /// Look the rest of the message up as a video.
    Youtube(String),
    /// Look the rest of the message up as a photo.
    Photo(String),
    /// Delete the bot's last message that links a video.
    RemoveVideo,
    /// Delete the bot's last message.
    RemoveLast,
    /// In the counting channel: answer with the next number.
    Count(i64),
    /// Show the leaderboard.
    Leaderboard,
    /// None of the above: the message is scored.
    Score,
}

pub enum CommandView {
    Youtube(Seq<char>),
    Photo(Seq<char>),
    RemoveVideo,
    RemoveLast,
    Count(int),
    Leaderboard,
    Score,
}

impl View for Command {
    type V = CommandView;

    open spec fn view(&self) -> CommandView {
        match self {
            Command::Youtube(q) => CommandView::Youtube(q@),
            Command::Photo(q) => CommandView::Photo(q@),
            Command::RemoveVideo => CommandView::RemoveVideo,
            Command::RemoveLast => CommandView::RemoveLast,
            Command::Count(n) => CommandView::Count(*n as int),
            Command::Leaderboard => CommandView::Leaderboard,
            Command::Score => CommandView::Score,
        }
    }
}

/// A friendly answer to small talk addressed to the bot.
#[derive(Clone, Copy, Debug, PartialEq, Eq)]
pub enum SmallTalk {
    Thanks,
    GoodNight,
}

pub open spec fn ascii_lower(c: char) -> char {
    if 'A' <= c <= 'Z' {
        ((c as u32) + 32) as char
    } else {
        c
    }
}

pub open spec fn ascii_lower_seq(s: Seq<char>) -> Seq<char> {
    s.map_values(|c: char| ascii_lower(c))
}

pub open spec fn is_digit(c: char) -> bool {
    '0' <= c <= '9'
}

pub open spec fn all_digits(s: Seq<char>) -> bool {
    s.len() > 0 && forall|i: int| 0 <= i < s.len() ==> is_digit(#[trigger] s[i])
}

pub open spec fn digits_value(s: Seq<char>) -> int
    decreases s.len(),
{
    if s.len() == 0 {
        0
    } else {
        digits_value(s.drop_last()) * 10 + (s.last() as u32 - '0' as u32)
    }
}

/// The integer that a decimal text with an optional sign writes.
pub open spec fn decimal_value(s: Seq<char>) -> Option<int> {
    if s.len() > 0 && s[0] == '-' && all_digits(s.drop_first()) {
        Some(-digits_value(s.drop_first()))
    } else if s.len() > 0 && s[0] == '+' && all_digits(s.drop_first()) {
        Some(digits_value(s.drop_first()))
    } else if all_digits(s) {
        Some(digits_value(s))
    } else {
        None
    }
}

/// What `i32::from_str` accepts: a decimal integer that fits.
pub open spec fn parsed_i32(s: Seq<char>) -> Option<i32> {
    match decimal_value(s) {
        Some(v) => if i32::MIN <= v <= i32::MAX {
            Some(v as i32)
        } else {
            None
        },
        None => None,
    }
}

pub open spec fn youtube_prefix() -> Seq<char> {
    "youtube "@
}

pub open spec fn photo_prefix() -> Seq<char> {
    "fotografera "@
}

pub open spec fn counting_channel() -> Seq<char> {
    "räkna"@
}

/// The command that a message asks for, given its text, that text with
/// ASCII letters lower-cased, and the name of its channel.
pub open spec fn command_of(lower: Seq<char>, content: Seq<char>, channel: Seq<char>) -> CommandView {
    if youtube_prefix().is_prefix_of(lower) {
        CommandView::Youtube(lower.skip(youtube_prefix().len() as int))
    } else if photo_prefix().is_prefix_of(lower) {
        CommandView::Photo(lower.skip(photo_prefix().len() as int))
    } else if lower == "ta bort videon, bot."@ {
        CommandView::RemoveVideo
    } else if lower == "bot ta bort"@ {
        CommandView::RemoveLast
    } else if channel == counting_channel() && parsed_i32(content) is Some {
        CommandView::Count(parsed_i32(content)->0 + 1)
    } else if lower == "bot poäng"@ {
        CommandView::Leaderboard
    } else {
        CommandView::Score
    }
}

/// Relies on `str::to_ascii_lowercase`: ASCII letters lower-cased, every
/// other character kept.
#[verifier::external_body]
fn ascii_lowercase(s: &str) -> (r: String)
    ensures
        r@ == ascii_lower_seq(s@),
{
    s.to_ascii_lowercase()
}

/// Relies on `str::strip_prefix`: the text after `prefix` when it starts with it.
#[verifier::external_body]
fn strip_prefix(s: &str, prefix: &str) -> (r: Option<String>)
    ensures
        match r {
            Some(rest) => prefix@.is_prefix_of(s@) && rest@ == s@.skip(prefix@.len() as int),
            None => !prefix@.is_prefix_of(s@),
        },
{
    s.strip_prefix(prefix).map(|rest| rest.to_string())
}

/// Relies on `str::parse::<i32>`: an optional sign and decimal digits whose
/// value fits.
#[verifier::external_body]
fn parse_i32(s: &str) -> (r: Option<i32>)
    ensures
        r == parsed_i32(s@),
{
    s.parse::<i32>().ok()
}

/// Whether the message (lower-cased) invites a dance, and which answer, if
/// any, it earns when it speaks to the bot.
pub open spec fn small_talk_of(lower: Seq<char>) -> (bool, Option<SmallTalk>) {
    let answer = if contains_seq(lower, "bot"@) {
        if contains_seq(lower, "tack"@) {
            Some(SmallTalk::Thanks)
        } else if contains_seq(lower, "godnatt"@) {
            Some(SmallTalk::GoodNight)
        } else {
            None
        }
    } else {
        None
    };
    (contains_seq(lower, "dans"@), answer)
}

/// Lower-cases the ASCII letters of a message, as the commands are matched.
pub fn lowercase_for_commands(content: &str) -> (r: String)
    ensures
        r@ == ascii_lower_seq(content@),
{
    ascii_lowercase(content)
}

/// The command that a message in channel `channel_name` asks for.
pub fn command_for(content: &str, channel_name: &str) -> (r: Command)
    ensures
        r@ == command_of(ascii_lower_seq(content@), content@, channel_name@),
{
    let lower = ascii_lowercase(content);
    if let Some(query) = strip_prefix(lower.as_str(), "youtube ") {
        return Command::Youtube(query);
    }
    if let Some(query) = strip_prefix(lower.as_str(), "fotografera ") {
        return Command::Photo(query);
    }
    if lower == "ta bort videon, bot.".to_owned() {
        return Command::RemoveVideo;
    }
    if lower == "bot ta bort".to_owned() {
        return Command::RemoveLast;
    }
    if channel_name.to_owned() == "räkna".to_owned() {
        if let Some(count) = parse_i32(content) {
            return Command::Count(count as i64 + 1);
        }
    }
    if lower == "bot poäng".to_owned() {
        return Command::Leaderboard;
    }
    Command::Score
}

/// Whether a message invites a dance, and the answer it earns when it
/// speaks to the bot; `lower` is the message with ASCII letters lower-cased.
pub fn small_talk(lower: &str) -> (r: (bool, Option<SmallTalk>))
    ensures
        r == small_talk_of(lower@),
{
    let dance = text_contains(lower, "dans");
    let mut answer: Option<SmallTalk> = None;
    if text_contains(lower, "bot") {
        if text_contains(lower, "tack") {
            answer = Some(SmallTalk::Thanks);
        } else if text_contains(lower, "godnatt") {
            answer = Some(SmallTalk::GoodNight);
        }
    }
    (dance, answer)
}

} // verus!
