//! The texts that answer the user.

use crate::anime::{AniInfo, Follows, InfoView, Updates};
use crate::feed::texts;
use crate::identity::{series_key, series_key_of};
use crate::lifecycle::{outcome_view, TransitionError};
use crate::order::{ranked, sort_ranked, views};
use crate::reconcile::{Notification, NotificationView, Reconciliation};
use crate::text::{signed_decimal, signed_decimal_string};
use crate::watch::{listing, values_of, GapView, WatchGap, WatchReport};
use vstd::prelude::*;
use vstd::string::*;

verus! {

/// The line of a series in a listing.
pub open spec fn listing_line(info: InfoView) -> Seq<char> {
    "— "@ + info.extra.en_name + " ["@ + info.extra.season.text() + "] - Ep. "@ + signed_decimal(
        info.info.last_episode,
    ) + "\n"@
}

/// The lines of the series of a listing, in order.
pub open spec fn listing_lines(items: Seq<InfoView>) -> Seq<char>
    decreases items.len(),
{
    if items.len() == 0 {
        Seq::empty()
    } else {
        listing_lines(items.drop_last()) + listing_line(items.last())
    }
}

/// A listing: `empty` where there is no series, else `header` and a line for
/// each series.
pub open spec fn listing_text(empty: Seq<char>, header: Seq<char>, items: Seq<InfoView>) -> Seq<
    char,
> {
    if items.len() == 0 {
        empty
    } else {
        header + listing_lines(items)
    }
}

/// Renders the line of a series in a listing.
pub fn render_listing_line(info: &AniInfo) -> (r: String)
    ensures
        r@ == listing_line(info@),
{
    let mut r = String::from_str("— ");
    r.append(info.extra.en_name.as_str());
    r.append(" [");
    r.append(info.extra.season.to_string().as_str());
    r.append("] - Ep. ");
    r.append(signed_decimal_string(info.info.last_episode as i32).as_str());
    r.append("\n");
    r
}

/// Renders a listing of the given series, in the order given.
pub fn render_listing(empty: &str, header: &str, items: &Vec<AniInfo>) -> (r: String)
    ensures
        r@ == listing_text(empty@, header@, views(items@)),
{
    if items.len() == 0 {
        return String::from_str(empty);
    }
    let ghost all = views(items@);
    let mut r = String::from_str(header);
    let mut i: usize = 0;
    while i < items.len()
        invariant
            i <= items.len(),
            all == views(items@),
            r@ == header@ + listing_lines(all.take(i as int)),
        decreases items.len() - i,
    {
        let line = render_listing_line(&items[i]);
        r.append(line.as_str());
        proof {
            let next = all.take(i + 1);
            assert(next.drop_last() =~= all.take(i as int));
        }
        i += 1;
    }
    assert(all.take(i as int) =~= all);
    r
}

/// What is said of the followed series, for some listing order of them.
pub open spec fn following_text(items: Seq<InfoView>) -> Seq<char> {
    listing_text(
        "We are not following any anime series."@,
        "We are following these anime series:\n\n"@,
        items,
    )
}

/// What is said of the finished series, for some listing order of them.
pub open spec fn finished_text(items: Seq<InfoView>) -> Seq<char> {
    listing_text(
        "We haven't finished any anime series."@,
        "We have finished these anime series:\n\n"@,
        items,
    )
}

/// Lists the followed series, in listing order.
pub fn render_following(following: &Follows) -> (r: String)
    ensures
        exists|order: Seq<InfoView>|
            {
                &&& ranked::<AniInfo>(order)
                &&& order.to_multiset() == values_of(following.following.model()).to_multiset()
                &&& r@ == following_text(order)
            },
{
    let items = listing(following);
    render_listing(
        "We are not following any anime series.",
        "We are following these anime series:\n\n",
        &items,
    )
}

/// Lists the finished series, in listing order.
pub fn render_finished(finished: &Follows) -> (r: String)
    ensures
        exists|order: Seq<InfoView>|
            {
                &&& ranked::<AniInfo>(order)
                &&& order.to_multiset() == values_of(finished.following.model()).to_multiset()
                &&& r@ == finished_text(order)
            },
{
    let items = listing(finished);
    render_listing(
        "We haven't finished any anime series.",
        "We have finished these anime series:\n\n",
        &items,
    )
}

/// How a gap is described: the one episode that waits, or the first and the
/// last of those that wait.
pub open spec fn gap_text(gap: GapView) -> Seq<char> {
    if gap.first == gap.last {
        "just Ep. "@ + signed_decimal(gap.last)
    } else {
        "from "@ + signed_decimal(gap.first) + " up to Ep."@ + signed_decimal(gap.last)
    }
}

/// The entry of a gap in the watchlist.
pub open spec fn gap_line(gap: GapView) -> Seq<char> {
    "· "@ + gap.display_name + "\n    → "@ + gap_text(gap) + "\n"@
}

/// The entries of the gaps, in order.
pub open spec fn gap_lines(gaps: Seq<GapView>) -> Seq<char>
    decreases gaps.len(),
{
    if gaps.len() == 0 {
        Seq::empty()
    } else {
        gap_lines(gaps.drop_last()) + gap_line(gaps.last())
    }
}

/// Describes a gap.
pub fn describe_gap(gap: &WatchGap) -> (r: String)
    ensures
        r@ == gap_text(gap@),
{
    if gap.is_single() {
        let mut r = String::from_str("just Ep. ");
        r.append(signed_decimal_string(gap.last as i32).as_str());
        r
    } else {
        let mut r = String::from_str("from ");
        r.append(signed_decimal_string(gap.first as i32).as_str());
        r.append(" up to Ep.");
        r.append(signed_decimal_string(gap.last as i32).as_str());
        r
    }
}

/// What is said of a watch report.
pub open spec fn watchlist_text(report: WatchReport) -> Seq<char> {
    match report {
        WatchReport::Behind(gaps) => "This is our watchlist:\n"@ + gap_lines(views(gaps@)),
        _ => "We are up to date according to the latest Update data."@,
    }
}

/// Renders a watch report: the watchlist where series are behind, and the
/// word that nothing waits otherwise.
pub fn render_watchlist(report: &WatchReport) -> (r: String)
    ensures
        r@ == watchlist_text(*report),
{
    match report {
        WatchReport::Behind(gaps) => {
            let ghost all = views(gaps@);
            let mut r = String::from_str("This is our watchlist:\n");
            let mut i: usize = 0;
            while i < gaps.len()
                invariant
                    i <= gaps.len(),
                    all == views(gaps@),
                    r@ == "This is our watchlist:\n"@ + gap_lines(all.take(i as int)),
                decreases gaps.len() - i,
            {
                let mut line = String::from_str("· ");
                line.append(gaps[i].display_name.as_str());
                line.append("\n    → ");
                line.append(describe_gap(&gaps[i]).as_str());
                line.append("\n");
                r.append(line.as_str());
                proof {
                    let next = all.take(i + 1);
                    assert(next.drop_last() =~= all.take(i as int));
                }
                i += 1;
            }
            assert(all.take(i as int) =~= all);
            r
        },
        _ => String::from_str("We are up to date according to the latest Update data."),
    }
}

/// The line that announces an episode.
pub open spec fn notice_line(note: NotificationView) -> Seq<char> {
    "— Ep. "@ + signed_decimal(note.episode) + " for '"@ + note.display_name + "' is out ("@
        + note.raw_name + ")\n"@
}

/// The lines that announce the episodes, in order.
pub open spec fn notice_lines(notes: Seq<NotificationView>) -> Seq<char>
    decreases notes.len(),
{
    if notes.len() == 0 {
        Seq::empty()
    } else {
        notice_lines(notes.drop_last()) + notice_line(notes.last())
    }
}

/// The lines that name the series that start, in order.
pub open spec fn series_lines(names: Seq<Seq<char>>) -> Seq<char>
    decreases names.len(),
{
    if names.len() == 0 {
        Seq::empty()
    } else {
        series_lines(names.drop_last()) + ("— "@ + names.last() + "\n"@)
    }
}

/// What follows the announced episodes: nothing where no series starts, else
/// the series that start, set off by an empty line where episodes were
/// announced.
pub open spec fn series_part(announced: bool, names: Seq<Seq<char>>) -> Seq<char> {
    if names.len() == 0 {
        Seq::empty()
    } else if announced {
        "\n"@ + "We have new series coming up!\n"@ + series_lines(names)
    } else {
        "We have new series coming up!\n"@ + series_lines(names)
    }
}

/// The announcement of a run that found something.
pub open spec fn announcement_text(
    notes: Seq<NotificationView>,
    names: Seq<Seq<char>>,
) -> Seq<char> {
    "This is the latest anime update:\n\n"@ + notice_lines(notes) + series_part(
        notes.len() > 0,
        names,
    )
}

/// Renders the lines of the announced episodes, in the order given.
pub fn render_notice_lines(notes: &Vec<Notification>) -> (r: String)
    ensures
        r@ == notice_lines(views(notes@)),
{
    let ghost all = views(notes@);
    let mut r = String::new();
    let mut i: usize = 0;
    while i < notes.len()
        invariant
            i <= notes.len(),
            all == views(notes@),
            r@ == notice_lines(all.take(i as int)),
        decreases notes.len() - i,
    {
        let mut line = String::from_str("— Ep. ");
        line.append(signed_decimal_string(notes[i].episode as i32).as_str());
        line.append(" for '");
        line.append(notes[i].display_name.as_str());
        line.append("' is out (");
        line.append(notes[i].raw_name.as_str());
        line.append(")\n");
        r.append(line.as_str());
        proof {
            let next = all.take(i + 1);
            assert(next.drop_last() =~= all.take(i as int));
        }
        i += 1;
    }
    assert(all.take(i as int) =~= all);
    r
}

/// Renders the lines of the series that start, in the order given.
pub fn render_series_lines(names: &Vec<String>) -> (r: String)
    ensures
        r@ == series_lines(texts(names@)),
{
    let ghost all = texts(names@);
    let mut r = String::new();
    let mut i: usize = 0;
    while i < names.len()
        invariant
            i <= names.len(),
            all == texts(names@),
            r@ == series_lines(all.take(i as int)),
        decreases names.len() - i,
    {
        let mut line = String::from_str("— ");
        line.append(names[i].as_str());
        line.append("\n");
        r.append(line.as_str());
        proof {
            let next = all.take(i + 1);
            assert(next.drop_last() =~= all.take(i as int));
        }
        i += 1;
    }
    assert(all.take(i as int) =~= all);
    r
}

/// Renders the announcement of the given episodes and starting series, in
/// the order given.
pub fn render_announcement(notes: &Vec<Notification>, names: &Vec<String>) -> (r: String)
    ensures
        r@ == announcement_text(views(notes@), texts(names@)),
{
    let mut r = String::from_str("This is the latest anime update:\n\n");
    r.append(render_notice_lines(notes).as_str());
    if names.len() > 0 {
        if notes.len() > 0 {
            r.append("\n");
        }
        r.append("We have new series coming up!\n");
        r.append(render_series_lines(names).as_str());
    }
    r
}

/// What a run tells the user, and what it leaves to be stored.
#[derive(Debug)]
pub struct Report {
    /// The text for the user.
    pub message: String,
    /// The cache to write, where the run found something.
    pub store: Option<Updates>,
}

/// Turns what a run found into its report. A run that found nothing says so
/// and leaves nothing to store. Any other run announces the episodes ordered
/// by the series' localized names, then the series that start, and leaves the
/// cache to store.
pub fn report(run: Reconciliation) -> (r: Report)
    ensures
        run.notifications@.len() == 0 && run.new_series@.len() == 0 ==> r.message@
            == "There are no updates!"@ && r.store is None,
        run.notifications@.len() > 0 || run.new_series@.len() > 0 ==> r.store == Some(
            run.updated_cache,
        ) && exists|order: Seq<NotificationView>|
            {
                &&& ranked::<Notification>(order)
                &&& order.to_multiset() == views(run.notifications@).to_multiset()
                &&& r.message@ == announcement_text(order, texts(run.new_series@))
            },
{
    if run.is_noop() {
        return Report { message: String::from_str("There are no updates!"), store: None };
    }
    let Reconciliation { notifications, updated_cache, new_series } = run;
    let sorted = sort_ranked(notifications);
    let message = render_announcement(&sorted, &new_series);
    Report { message, store: Some(updated_cache) }
}

/// What is said after a series was moved one episode further.
pub open spec fn advance_text(key: Seq<char>, outcome: Result<InfoView, TransitionError>) -> Seq<
    char,
> {
    match outcome {
        Ok(info) => "Updated '"@ + info.extra.en_name + "' to episode "@ + signed_decimal(
            info.info.last_episode,
        ),
        Err(TransitionError::EpisodeLimit) => "I can't count further for "@ + key,
        Err(_) => "I couldn't find "@ + key + " in our follows"@,
    }
}

/// What is said after a series was retired.
pub open spec fn finish_text(key: Seq<char>, outcome: Result<InfoView, TransitionError>) -> Seq<
    char,
> {
    match outcome {
        Ok(info) => "'"@ + info.extra.en_name + "' has been added to the finished list."@,
        Err(TransitionError::AlreadyFinished) => "You already have '"@ + key
            + "' in our finished list"@,
        Err(_) => "I couldn't find "@ + key + " in our follows"@,
    }
}

/// Answers an attempt to move a series one episode further.
pub fn advance_reply(key: &str, outcome: &Result<AniInfo, TransitionError>) -> (r: String)
    ensures
        r@ == advance_text(key@, outcome_view(*outcome)),
{
    match outcome {
        Ok(info) => {
            let mut r = String::from_str("Updated '");
            r.append(info.extra.en_name.as_str());
            r.append("' to episode ");
            r.append(signed_decimal_string(info.info.last_episode as i32).as_str());
            r
        },
        Err(TransitionError::EpisodeLimit) => {
            let mut r = String::from_str("I can't count further for ");
            r.append(key);
            r
        },
        Err(_) => {
            let mut r = String::from_str("I couldn't find ");
            r.append(key);
            r.append(" in our follows");
            r
        },
    }
}

/// Answers an attempt to retire a series.
pub fn finish_reply(key: &str, outcome: &Result<AniInfo, TransitionError>) -> (r: String)
    ensures
        r@ == finish_text(key@, outcome_view(*outcome)),
{
    match outcome {
        Ok(info) => {
            let mut r = String::from_str("'");
            r.append(info.extra.en_name.as_str());
            r.append("' has been added to the finished list.");
            r
        },
        Err(TransitionError::AlreadyFinished) => {
            let mut r = String::from_str("You already have '");
            r.append(key);
            r.append("' in our finished list");
            r
        },
        Err(_) => {
            let mut r = String::from_str("I couldn't find ");
            r.append(key);
            r.append(" in our follows");
            r
        },
    }
}

/// Answers a request for the key of a name.
pub fn id_reply(name: &str) -> (r: String)
    ensures
        r@ == "id:"@ + series_key_of(name@),
{
    let mut r = String::from_str("id:");
    r.append(series_key(name).as_str());
    r
}

} // verus!
