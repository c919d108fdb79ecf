//! From the titles of a feed to a snapshot: the last episode announced for
//! each series, under the series' key.

use crate::anime::{AniMinInfo, MinInfoView, Updates};
use crate::identity::{series_key, series_key_of};
use crate::table::assoc_put;
use vstd::prelude::*;
use vstd::string::*;
use vstd::utf8::*;

verus! {

/// The pattern of a title that announces an episode: the series' name, the
/// separator, and the episode's number.
pub const TITLE_PATTERN: &'static str = "([\\w\\W\\s]+) - Episode ([\\d\\D]+)";

/// What the regex crate finds for a pattern in a text: `None` where
/// `Regex::new` refuses the pattern; else `Some(None)` where
/// `Regex::captures` finds no match; else the texts of the first and the
/// second group of the match, each `None` where the group took no part in it.
pub uninterp spec fn regex_groups(pattern: Seq<char>, text: Seq<char>) -> Option<
    Option<(Option<Seq<char>>, Option<Seq<char>>)>,
>;

/// The model of a text that may be missing.
pub open spec fn text_view(text: Option<String>) -> Option<Seq<char>> {
    match text {
        Some(t) => Some(t@),
        None => None,
    }
}

/// The model of what a search for two groups found.
pub open spec fn groups_view(found: Option<Option<(Option<String>, Option<String>)>>) -> Option<
    Option<(Option<Seq<char>>, Option<Seq<char>>)>,
> {
    match found {
        None => None,
        Some(None) => Some(None),
        Some(Some(g)) => Some(Some((text_view(g.0), text_view(g.1)))),
    }
}

/// The text of a group, empty where the group took no part in the match.
pub open spec fn group_text(group: Option<Seq<char>>) -> Seq<char> {
    match group {
        Some(t) => t,
        None => Seq::empty(),
    }
}

/// The models of the titles of a feed's entries, `None` for an entry
/// without a title.
pub open spec fn titles_view(titles: Seq<Option<String>>) -> Seq<Option<Seq<char>>> {
    Seq::new(titles.len(), |i: int| text_view(titles[i]))
}

/// Compiles `pattern` with `regex::Regex::new`, searches `text` with
/// `Regex::captures`, and hands out the texts of the first two groups as
/// `Captures::get` gives them. The outcome depends on the two texts alone;
/// the contract gives it its name and says nothing more of it.
#[verifier::external_body]
fn capture_groups(pattern: &str, text: &str) -> (r: Option<
    Option<(Option<String>, Option<String>)>,
>)
    ensures
        groups_view(r) == regex_groups(pattern@, text@),
{
    let re = match regex::Regex::new(pattern) {
        Ok(re) => re,
        Err(_) => return None,
    };
    let found = match re.captures(text) {
        Some(found) => found,
        None => return Some(None),
    };
    let first = found.get(1).map(|m| m.as_str().to_string());
    let second = found.get(2).map(|m| m.as_str().to_string());
    Some(Some((first, second)))
}

/// The series' name and the episode's text in a title that announces an
/// episode.
pub open spec fn title_groups(title: Seq<char>) -> Option<(Seq<char>, Seq<char>)> {
    parts_of(regex_groups(TITLE_PATTERN@, title))
}

/// The two parts that a search found: none where the pattern was refused or
/// did not match, else the texts of the two groups.
pub open spec fn parts_of(found: Option<Option<(Option<Seq<char>>, Option<Seq<char>>)>>) -> Option<
    (Seq<char>, Seq<char>),
> {
    match found {
        Some(Some(g)) => Some((group_text(g.0), group_text(g.1))),
        _ => None,
    }
}

/// Takes the two parts out of what a search found.
pub fn parts(found: Option<Option<(Option<String>, Option<String>)>>) -> (r: Option<
    (String, String),
>)
    ensures
        match r {
            Some(g) => parts_of(groups_view(found)) == Some((g.0@, g.1@)),
            None => parts_of(groups_view(found)) is None,
        },
{
    match found {
        Some(Some(g)) => {
            let first = match g.0 {
                Some(t) => t,
                None => String::new(),
            };
            let second = match g.1 {
                Some(t) => t,
                None => String::new(),
            };
            Some((first, second))
        },
        _ => None,
    }
}

/// Splits a title into the series' name and the episode's text. A title that
/// announces no episode gives `None`.
pub fn split_title(title: &str) -> (r: Option<(String, String)>)
    ensures
        match r {
            Some(g) => title_groups(title@) == Some((g.0@, g.1@)),
            None => title_groups(title@) is None,
        },
{
    parts(capture_groups(TITLE_PATTERN, title))
}

/// Every byte is a decimal digit.
pub open spec fn all_digits(s: Seq<u8>) -> bool {
    forall|i: int| 0 <= i < s.len() ==> 48 <= #[trigger] s[i] <= 57
}

/// The number that a string of digits spells.
pub open spec fn digits_value(s: Seq<u8>) -> nat
    decreases s.len(),
{
    if s.len() == 0 {
        0
    } else {
        digits_value(s.drop_last()) * 10 + (s.last() - 48) as nat
    }
}

/// The integer that a text spells: digits, with or without one sign in front.
pub open spec fn integer_of(s: Seq<u8>) -> Option<int> {
    let signed = s.len() > 0 && (s[0] == 45 || s[0] == 43);
    let digits = if signed {
        s.skip(1)
    } else {
        s
    };
    if digits.len() == 0 || !all_digits(digits) {
        None
    } else if s[0] == 45 {
        Some(-(digits_value(digits) as int))
    } else {
        Some(digits_value(digits) as int)
    }
}

/// The episode number that a text spells, where it spells an integer that an
/// episode counter can hold.
pub open spec fn episode_of(s: Seq<u8>) -> Option<i16> {
    match integer_of(s) {
        Some(v) => if -32768 <= v <= 32767 {
            Some(v as i16)
        } else {
            None
        },
        None => None,
    }
}

/// A longer string of digits spells no smaller number.
proof fn lemma_digits_value_step(s: Seq<u8>)
    requires
        s.len() > 0,
        all_digits(s),
    ensures
        digits_value(s) == digits_value(s.drop_last()) * 10 + (s.last() - 48),
        digits_value(s) >= digits_value(s.drop_last()),
{
}

/// Reads an episode number. Text that spells no integer, or one out of an
/// episode counter's range, gives `None`.
pub fn parse_episode(text: &str) -> (r: Option<i16>)
    ensures
        r == episode_of(text.spec_bytes()),
{
    let bytes = text.as_bytes();
    let n = bytes.len();
    if n == 0 {
        return None;
    }
    let negative = bytes[0] == 45;
    let start: usize = if bytes[0] == 45 || bytes[0] == 43 {
        1
    } else {
        0
    };
    let ghost digits = bytes@.subrange(start as int, n as int);
    assert(digits =~= if start == 1 {
        bytes@.skip(1)
    } else {
        bytes@
    });
    if start == n {
        return None;
    }
    let mut acc: u32 = 0;
    let mut over = false;
    let mut i: usize = start;
    while i < n
        invariant
            start <= i <= n,
            n == bytes@.len(),
            bytes@ == text.spec_bytes(),
            start <= 1,
            start == 1 <==> (bytes@[0] == 45 || bytes@[0] == 43),
            negative == (bytes@[0] == 45),
            digits == bytes@.subrange(start as int, n as int),
            digits == (if start == 1 {
                bytes@.skip(1)
            } else {
                bytes@
            }),
            all_digits(bytes@.subrange(start as int, i as int)),
            !over ==> acc == digits_value(bytes@.subrange(start as int, i as int)) && acc
                <= 32768,
            over ==> digits_value(bytes@.subrange(start as int, i as int)) > 32768,
        decreases n - i,
    {
        let b: u8 = bytes[i];
        if b < 48 || b > 57 {
            assert(digits[i - start] == b);
            return None;
        }
        let ghost grown = bytes@.subrange(start as int, i + 1);
        proof {
            assert(grown.drop_last() =~= bytes@.subrange(start as int, i as int));
            lemma_digits_value_step(grown);
        }
        if !over {
            let next: u32 = acc * 10 + (b - 48) as u32;
            if next > 32768 {
                over = true;
            } else {
                acc = next;
            }
        }
        i += 1;
    }
    if over {
        None
    } else if negative {
        Some((-(acc as i32)) as i16)
    } else if acc == 32768 {
        None
    } else {
        Some(acc as i16)
    }
}

/// A snapshot of a feed: the last episode announced for each series, and the
/// number of titles whose episode could not be read.
#[derive(Debug)]
pub struct Normalized {
    pub feed: Updates,
    pub malformed: usize,
}

/// The snapshot after one more title. A title that announces no episode
/// changes nothing; one whose episode cannot be read is counted; any other
/// puts its episode under the series' key, in the place of an earlier one.
pub open spec fn feed_step(
    acc: (Seq<(Seq<char>, MinInfoView)>, nat),
    title: Seq<char>,
) -> (Seq<(Seq<char>, MinInfoView)>, nat) {
    match title_groups(title) {
        None => acc,
        Some(g) => match episode_of(encode_utf8(g.1)) {
            None => (acc.0, acc.1 + 1),
            Some(n) => (
                assoc_put(
                    acc.0,
                    series_key_of(g.0),
                    MinInfoView { name: g.0, last_episode: n as int },
                ),
                acc.1,
            ),
        },
    }
}

/// The snapshot that a sequence of titles gives, taken in order.
pub open spec fn feed_of(titles: Seq<Seq<char>>) -> (Seq<(Seq<char>, MinInfoView)>, nat)
    decreases titles.len(),
{
    if titles.len() == 0 {
        (Seq::empty(), 0)
    } else {
        feed_step(feed_of(titles.drop_last()), titles.last())
    }
}

/// The models of a sequence of strings.
pub open spec fn texts(v: Seq<String>) -> Seq<Seq<char>> {
    Seq::new(v.len(), |i: int| v[i]@)
}

/// Takes one announced episode into a snapshot: puts it under the series'
/// key where its number can be read, and says whether it could.
pub fn record(feed: &mut Updates, series: &str, episode: &str) -> (read: bool)
    requires
        old(feed).wf(),
    ensures
        final(feed).wf(),
        read == episode_of(episode.spec_bytes()).is_some(),
        read ==> final(feed).updates.model() == assoc_put(
            old(feed).updates.model(),
            series_key_of(series@),
            MinInfoView {
                name: series@,
                last_episode: episode_of(episode.spec_bytes()).unwrap() as int,
            },
        ),
        !read ==> final(feed).updates.model() == old(feed).updates.model(),
{
    match parse_episode(episode) {
        Some(n) => {
            let info = AniMinInfo { name: String::from_str(series), last_episode: n };
            feed.updates.insert(series_key(series), info);
            true
        },
        None => false,
    }
}

/// The number of series standing in a snapshot never exceeds the number of
/// titles it was made from, nor does the count of unreadable titles.
pub proof fn lemma_feed_of_bounds(titles: Seq<Seq<char>>)
    ensures
        feed_of(titles).0.len() <= titles.len(),
        feed_of(titles).1 <= titles.len(),
    decreases titles.len(),
{
    if titles.len() > 0 {
        lemma_feed_of_bounds(titles.drop_last());
    }
}

/// Makes the snapshot of a feed from its titles, taken in order: of two
/// titles for one series the later one counts.
pub fn normalize(titles: &Vec<String>) -> (r: Normalized)
    ensures
        r.feed.wf(),
        r.feed.updates.model() == feed_of(texts(titles@)).0,
        r.malformed == feed_of(texts(titles@)).1,
{
    let mut feed = Updates::new();
    let mut malformed: usize = 0;
    let mut i: usize = 0;
    while i < titles.len()
        invariant
            i <= titles.len(),
            feed.wf(),
            feed.updates.model() == feed_of(texts(titles@).take(i as int)).0,
            malformed == feed_of(texts(titles@).take(i as int)).1,
        decreases titles.len() - i,
    {
        proof {
            let next = texts(titles@).take(i + 1);
            assert(next.drop_last() =~= texts(titles@).take(i as int));
            lemma_feed_of_bounds(texts(titles@).take(i as int));
        }
        match split_title(titles[i].as_str()) {
            Some(g) => {
                let read = record(&mut feed, g.0.as_str(), g.1.as_str());
                if !read {
                    malformed += 1;
                }
            },
            None => {},
        }
        i += 1;
    }
    assert(texts(titles@).take(i as int) =~= texts(titles@));
    Normalized { feed, malformed }
}

/// The titles that stand in a feed, without the entries that have none.
pub open spec fn present(titles: Seq<Option<Seq<char>>>) -> Seq<Seq<char>>
    decreases titles.len(),
{
    if titles.len() == 0 {
        Seq::empty()
    } else {
        match titles.last() {
            Some(t) => present(titles.drop_last()).push(t),
            None => present(titles.drop_last()),
        }
    }
}

/// The titles of the entries that have one, in order.
pub fn present_titles(titles: Vec<Option<String>>) -> (r: Vec<String>)
    ensures
        texts(r@) == present(titles_view(titles@)),
{
    let ghost all = titles_view(titles@);
    let mut out: Vec<String> = Vec::new();
    let mut i: usize = 0;
    while i < titles.len()
        invariant
            i <= titles.len(),
            all == titles_view(titles@),
            texts(out@) == present(all.take(i as int)),
        decreases titles.len() - i,
    {
        proof {
            let next = all.take(i + 1);
            assert(next.drop_last() =~= all.take(i as int));
        }
        match &titles[i] {
            Some(t) => {
                out.push(t.clone());
            },
            None => {},
        }
        i += 1;
    }
    assert(all.take(i as int) =~= all);
    out
}

} // verus!
