//! Reconciliation of a feed snapshot against what is followed and what was
//! already announced.

use crate::anime::{Follows, InfoView, MinInfoView, Updates};
use crate::feed::texts;
use crate::order::{views, Ranked};
use crate::table::assoc_distinct;
use crate::text::{
    lemma_text_le_total, lemma_text_le_transitive, str_le, text_le,
};
use vstd::prelude::*;
use vstd::string::*;

verus! {

/// The model of a [`Notification`].
pub struct NotificationView {
    pub display_name: Seq<char>,
    pub episode: int,
    pub raw_name: Seq<char>,
}

/// A new episode of a followed series.
#[derive(Debug)]
pub struct Notification {
    /// The localized name under which the series is followed.
    pub display_name: String,
    /// The episode that is out.
    pub episode: i16,
    /// The series' name as the feed spells it.
    pub raw_name: String,
}

impl View for Notification {
    type V = NotificationView;

    open spec fn view(&self) -> NotificationView {
        NotificationView {
            display_name: self.display_name@,
            episode: self.episode as int,
            raw_name: self.raw_name@,
        }
    }
}

impl Ranked for Notification {
    open spec fn rank_le(a: NotificationView, b: NotificationView) -> bool {
        text_le(a.display_name, b.display_name)
    }

    fn precedes(&self, other: &Self) -> (r: bool) {
        str_le(self.display_name.as_str(), other.display_name.as_str())
    }

    proof fn rank_total(a: NotificationView, b: NotificationView) {
        lemma_text_le_total(a.display_name, b.display_name);
    }

    proof fn rank_transitive(a: NotificationView, b: NotificationView, c: NotificationView) {
        lemma_text_le_transitive(a.display_name, b.display_name, c.display_name);
    }
}

/// The episode above which a followed series is news: the one announced
/// last, or, where none was announced yet, the one watched last.
pub open spec fn threshold(
    following: Map<Seq<char>, InfoView>,
    cache: Map<Seq<char>, MinInfoView>,
    key: Seq<char>,
) -> int {
    if cache.contains_key(key) {
        cache[key].last_episode
    } else {
        following[key].info.last_episode
    }
}

/// The feed entry is a new episode of a followed series.
pub open spec fn is_update(
    following: Map<Seq<char>, InfoView>,
    cache: Map<Seq<char>, MinInfoView>,
    entry: (Seq<char>, MinInfoView),
) -> bool {
    following.contains_key(entry.0) && entry.1.last_episode > threshold(following, cache, entry.0)
}

/// The feed entry is the first episode of a series that is not followed.
pub open spec fn is_discovery(
    following: Map<Seq<char>, InfoView>,
    entry: (Seq<char>, MinInfoView),
) -> bool {
    !following.contains_key(entry.0) && entry.1.last_episode == 1
}

/// The notification for a feed entry of a followed series.
pub open spec fn notice(
    following: Map<Seq<char>, InfoView>,
    entry: (Seq<char>, MinInfoView),
) -> NotificationView {
    NotificationView {
        display_name: following[entry.0].extra.en_name,
        episode: entry.1.last_episode,
        raw_name: entry.1.name,
    }
}

/// The notifications that a feed gives, in the feed's order.
pub open spec fn notices(
    following: Map<Seq<char>, InfoView>,
    cache: Map<Seq<char>, MinInfoView>,
    feed: Seq<(Seq<char>, MinInfoView)>,
) -> Seq<NotificationView>
    decreases feed.len(),
{
    if feed.len() == 0 {
        Seq::empty()
    } else if is_update(following, cache, feed.last()) {
        notices(following, cache, feed.drop_last()).push(notice(following, feed.last()))
    } else {
        notices(following, cache, feed.drop_last())
    }
}

/// The names of the series that a feed starts and that are not followed, in
/// the feed's order.
pub open spec fn discoveries(
    following: Map<Seq<char>, InfoView>,
    feed: Seq<(Seq<char>, MinInfoView)>,
) -> Seq<Seq<char>>
    decreases feed.len(),
{
    if feed.len() == 0 {
        Seq::empty()
    } else if is_discovery(following, feed.last()) {
        discoveries(following, feed.drop_last()).push(feed.last().1.name)
    } else {
        discoveries(following, feed.drop_last())
    }
}

/// The cache after a feed: each new episode of a followed series stands under
/// its key, and nothing else has changed.
pub open spec fn staged(
    following: Map<Seq<char>, InfoView>,
    cache: Map<Seq<char>, MinInfoView>,
    feed: Seq<(Seq<char>, MinInfoView)>,
) -> Map<Seq<char>, MinInfoView>
    decreases feed.len(),
{
    if feed.len() == 0 {
        cache
    } else if is_update(following, cache, feed.last()) {
        staged(following, cache, feed.drop_last()).insert(feed.last().0, feed.last().1)
    } else {
        staged(following, cache, feed.drop_last())
    }
}

/// A feed of one entry gives one notification where the entry is a new
/// episode of a followed series, and takes it into the cache; it names one
/// starting series where the entry is the first episode of a series that is
/// not followed; and it gives and changes nothing otherwise.
pub proof fn lemma_one_entry(
    following: Map<Seq<char>, InfoView>,
    cache: Map<Seq<char>, MinInfoView>,
    entry: (Seq<char>, MinInfoView),
)
    ensures
        is_update(following, cache, entry) ==> notices(following, cache, seq![entry]) == seq![
            notice(following, entry),
        ] && staged(following, cache, seq![entry]) == cache.insert(entry.0, entry.1),
        !is_update(following, cache, entry) ==> notices(following, cache, seq![entry]).len() == 0
            && staged(following, cache, seq![entry]) == cache,
        is_discovery(following, entry) ==> discoveries(following, seq![entry]) == seq![
            entry.1.name,
        ],
        !is_discovery(following, entry) ==> discoveries(following, seq![entry]).len() == 0,
{
    reveal_with_fuel(notices, 2);
    reveal_with_fuel(staged, 2);
    reveal_with_fuel(discoveries, 2);
}

/// A key that no feed entry has stands in the cache as it stood before.
pub proof fn lemma_staged_untouched(
    following: Map<Seq<char>, InfoView>,
    cache: Map<Seq<char>, MinInfoView>,
    feed: Seq<(Seq<char>, MinInfoView)>,
    key: Seq<char>,
)
    requires
        forall|i: int| 0 <= i < feed.len() ==> (#[trigger] feed[i]).0 != key,
    ensures
        staged(following, cache, feed).contains_key(key) == cache.contains_key(key),
        staged(following, cache, feed)[key] == cache[key],
    decreases feed.len(),
{
    if feed.len() > 0 {
        let rest = feed.drop_last();
        lemma_staged_untouched(following, cache, rest, key);
    }
}

/// With distinct keys in the feed, the key of a feed entry that is news maps
/// to that entry afterwards, and the key of any other feed entry stands as it
/// stood before.
pub proof fn lemma_staged_at(
    following: Map<Seq<char>, InfoView>,
    cache: Map<Seq<char>, MinInfoView>,
    feed: Seq<(Seq<char>, MinInfoView)>,
    i: int,
)
    requires
        assoc_distinct(feed),
        0 <= i < feed.len(),
    ensures
        is_update(following, cache, feed[i]) ==> staged(following, cache, feed).contains_key(
            feed[i].0,
        ) && staged(following, cache, feed)[feed[i].0] == feed[i].1,
        !is_update(following, cache, feed[i]) ==> staged(following, cache, feed).contains_key(
            feed[i].0,
        ) == cache.contains_key(feed[i].0) && staged(following, cache, feed)[feed[i].0]
            == cache[feed[i].0],
    decreases feed.len(),
{
    let rest = feed.drop_last();
    let last = feed.len() - 1;
    if i == last {
        lemma_staged_untouched(following, cache, rest, feed[i].0);
    } else {
        lemma_staged_at(following, cache, rest, i);
    }
}

/// A feed without news gives no notification and leaves the cache as it is.
pub proof fn lemma_no_news(
    following: Map<Seq<char>, InfoView>,
    cache: Map<Seq<char>, MinInfoView>,
    feed: Seq<(Seq<char>, MinInfoView)>,
)
    requires
        forall|i: int| 0 <= i < feed.len() ==> !is_update(following, cache, #[trigger] feed[i]),
    ensures
        notices(following, cache, feed).len() == 0,
        staged(following, cache, feed) == cache,
    decreases feed.len(),
{
    if feed.len() > 0 {
        let rest = feed.drop_last();
        lemma_no_news(following, cache, rest);
    }
}

/// The cache changes only where there is a notification: a run without
/// notifications leaves it as it is.
pub proof fn lemma_quiet_run_keeps_cache(
    following: Map<Seq<char>, InfoView>,
    cache: Map<Seq<char>, MinInfoView>,
    feed: Seq<(Seq<char>, MinInfoView)>,
)
    requires
        notices(following, cache, feed).len() == 0,
    ensures
        staged(following, cache, feed) == cache,
    decreases feed.len(),
{
    if feed.len() > 0 {
        lemma_quiet_run_keeps_cache(following, cache, feed.drop_last());
    }
}

/// Reconciling the same feed a second time, against the cache that the first
/// run left, gives no notification and leaves that cache unchanged.
pub proof fn lemma_reconcile_idempotent(
    following: Map<Seq<char>, InfoView>,
    cache: Map<Seq<char>, MinInfoView>,
    feed: Seq<(Seq<char>, MinInfoView)>,
)
    requires
        assoc_distinct(feed),
    ensures
        notices(following, staged(following, cache, feed), feed).len() == 0,
        staged(following, staged(following, cache, feed), feed) == staged(following, cache, feed),
{
    let after = staged(following, cache, feed);
    assert forall|i: int| 0 <= i < feed.len() implies !is_update(
        following,
        after,
        #[trigger] feed[i],
    ) by {
        lemma_staged_at(following, cache, feed, i);
    }
    lemma_no_news(following, after, feed);
}

/// What one reconciliation run found.
#[derive(Debug)]
pub struct Reconciliation {
    /// The new episodes of followed series, in the feed's order.
    pub notifications: Vec<Notification>,
    /// The cache with the new episodes taken in.
    pub updated_cache: Updates,
    /// The names of the series that start and are not followed.
    pub new_series: Vec<String>,
}

impl Reconciliation {
    /// Whether the run found nothing; the cache is then not to be written.
    pub fn is_noop(&self) -> (r: bool)
        ensures
            r == (self.notifications@.len() == 0 && self.new_series@.len() == 0),
    {
        self.notifications.len() == 0 && self.new_series.len() == 0
    }
}

/// Reconciles a feed snapshot against the followed series and the cache of
/// what was announced. A followed series is news where the feed's episode is
/// above the one announced last, or above the one watched last where none was
/// announced; the cache takes the news in. A series that is not followed is
/// reported where the feed has its first episode, and changes nothing.
pub fn reconcile(following: &Follows, updates: Updates, feed: &Updates) -> (r: Reconciliation)
    requires
        following.wf(),
        updates.wf(),
        feed.wf(),
    ensures
        r.updated_cache.wf(),
        views(r.notifications@) == notices(following@, updates@, feed.updates.model()),
        texts(r.new_series@) == discoveries(following@, feed.updates.model()),
        r.updated_cache@ == staged(following@, updates@, feed.updates.model()),
        r.notifications@.len() == notices(following@, updates@, feed.updates.model()).len(),
        r.new_series@.len() == discoveries(following@, feed.updates.model()).len(),
        r.notifications@.len() == 0 ==> r.updated_cache@ == updates@,
{
    let ghost before = updates@;
    let ghost entries = feed.updates.model();
    let mut cache = updates;
    let mut notifications: Vec<Notification> = Vec::new();
    let mut new_series: Vec<String> = Vec::new();
    let mut i: usize = 0;
    while i < feed.updates.entries.len()
        invariant
            i <= feed.updates.entries.len(),
            entries == feed.updates.model(),
            following.wf(),
            feed.wf(),
            cache.wf(),
            views(notifications@) == notices(following@, before, entries.take(i as int)),
            texts(new_series@) == discoveries(following@, entries.take(i as int)),
            cache@ == staged(following@, before, entries.take(i as int)),
        decreases feed.updates.entries.len() - i,
    {
        let key = &feed.updates.entries[i].0;
        let info = &feed.updates.entries[i].1;
        let ghost seen = entries.take(i as int);
        let ghost notes = views(notifications@);
        proof {
            let next = entries.take(i + 1);
            assert(next.drop_last() =~= seen);
            assert(next.last() == entries[i as int]);
            lemma_staged_untouched(following@, before, seen, key@);
        }
        match following.following.get(key.as_str()) {
            None => {
                if info.last_episode == 1 {
                    new_series.push(info.name.clone());
                }
            },
            Some(followed) => {
                let threshold = match cache.updates.get(key.as_str()) {
                    Some(announced) => announced.last_episode,
                    None => followed.info.last_episode,
                };
                if info.last_episode > threshold {
                    notifications.push(
                        Notification {
                            display_name: followed.extra.en_name.clone(),
                            episode: info.last_episode,
                            raw_name: info.name.clone(),
                        },
                    );
                    cache.updates.insert(key.clone(), info.clone());
                    assert(views(notifications@) =~= notes.push(
                        notice(following@, entries[i as int]),
                    ));
                }
            },
        }
        i += 1;
    }
    proof {
        assert(entries.take(i as int) =~= entries);
        if notifications@.len() == 0 {
            lemma_quiet_run_keeps_cache(following@, before, entries);
        }
    }
    Reconciliation { notifications, updated_cache: cache, new_series }
}

} // verus!
