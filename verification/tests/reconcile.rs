use ceres::anime::{AniExtraInfo, AniInfo, AniMinInfo, AnimeSeason, Follows, Updates};
use ceres::messages::{render_announcement, report};
use ceres::order::sort_ranked;
use ceres::reconcile::{reconcile, Notification};

fn followed(list: &[(&str, &str, &str, i16)]) -> Follows {
    let mut f = Follows::new();
    for (key, name, en_name, episode) in list {
        f.following.insert(
            key.to_string(),
            AniInfo {
                info: AniMinInfo { name: name.to_string(), last_episode: *episode },
                extra: AniExtraInfo { en_name: en_name.to_string(), season: AnimeSeason::Unknown },
            },
        );
    }
    f
}

fn episodes(list: &[(&str, &str, i16)]) -> Updates {
    let mut u = Updates::new();
    for (key, name, episode) in list {
        u.updates.insert(
            key.to_string(),
            AniMinInfo { name: name.to_string(), last_episode: *episode },
        );
    }
    u
}

fn flat(u: &Updates) -> Vec<(String, String, i16)> {
    u.updates.entries.iter().map(|(k, v)| (k.clone(), v.name.clone(), v.last_episode)).collect()
}

#[test]
fn cold_start_threshold_is_the_episode_watched() {
    let following = followed(&[("k", "raw", "Shown", 3)]);
    let r = reconcile(&following, Updates::new(), &episodes(&[("k", "raw", 3)]));
    assert!(r.notifications.is_empty());
    assert!(r.new_series.is_empty());
    assert!(r.is_noop());
    assert_eq!(r.updated_cache.updates.len(), 0);

    let r = reconcile(&following, Updates::new(), &episodes(&[("k", "raw feed", 4)]));
    assert_eq!(r.notifications.len(), 1);
    assert_eq!(r.notifications[0].display_name, "Shown");
    assert_eq!(r.notifications[0].episode, 4);
    assert_eq!(r.notifications[0].raw_name, "raw feed");
    assert!(!r.is_noop());
    assert_eq!(flat(&r.updated_cache), vec![("k".to_string(), "raw feed".to_string(), 4)]);
}

#[test]
fn cache_threshold_wins_over_the_episode_watched() {
    let following = followed(&[("k", "raw", "Shown", 2)]);
    let r = reconcile(&following, episodes(&[("k", "raw", 5)]), &episodes(&[("k", "raw", 5)]));
    assert!(r.notifications.is_empty());
    assert_eq!(flat(&r.updated_cache), vec![("k".to_string(), "raw".to_string(), 5)]);

    let r = reconcile(&following, episodes(&[("k", "raw", 5)]), &episodes(&[("k", "raw", 4)]));
    assert!(r.notifications.is_empty());

    let r = reconcile(&following, episodes(&[("k", "raw", 5)]), &episodes(&[("k", "raw", 6)]));
    assert_eq!(r.notifications.len(), 1);
    assert_eq!(r.notifications[0].episode, 6);
    assert_eq!(flat(&r.updated_cache), vec![("k".to_string(), "raw".to_string(), 6)]);
}

#[test]
fn discovery_reports_first_episodes_of_unfollowed_series_only() {
    let following = followed(&[("k", "raw", "Shown", 2)]);
    let cache = episodes(&[("k", "raw", 2)]);
    let r = reconcile(&following, cache, &episodes(&[("new", "Brand New", 1)]));
    assert!(r.notifications.is_empty());
    assert_eq!(r.new_series, vec!["Brand New".to_string()]);
    assert!(!r.is_noop());
    assert_eq!(flat(&r.updated_cache), vec![("k".to_string(), "raw".to_string(), 2)]);
    assert_eq!(following.following.len(), 1);

    let r = reconcile(&following, episodes(&[("k", "raw", 2)]), &episodes(&[("new", "Brand New", 3)]));
    assert!(r.notifications.is_empty());
    assert!(r.new_series.is_empty());
    assert!(r.is_noop());
}

#[test]
fn followed_series_at_first_episode_is_no_discovery() {
    let following = followed(&[("k", "raw", "Shown", 1)]);
    let r = reconcile(&following, Updates::new(), &episodes(&[("k", "raw", 1)]));
    assert!(r.is_noop());
}

#[test]
fn second_run_on_the_same_feed_finds_nothing() {
    let following = followed(&[("a", "ra", "A", 1), ("b", "rb", "B", 7), ("c", "rc", "C", 0)]);
    let feed = episodes(&[("b", "rb", 9), ("x", "rx", 1), ("a", "ra", 1), ("c", "rc", 2)]);
    let first = reconcile(&following, episodes(&[("a", "ra", 1), ("z", "rz", 4)]), &feed);
    assert_eq!(first.notifications.len(), 2);
    assert_eq!(first.notifications[0].display_name, "B");
    assert_eq!(first.notifications[1].display_name, "C");
    let after = flat(&first.updated_cache);
    assert_eq!(
        after,
        vec![
            ("a".to_string(), "ra".to_string(), 1),
            ("z".to_string(), "rz".to_string(), 4),
            ("b".to_string(), "rb".to_string(), 9),
            ("c".to_string(), "rc".to_string(), 2),
        ]
    );
    let second = reconcile(&following, first.updated_cache, &feed);
    assert!(second.notifications.is_empty());
    assert_eq!(flat(&second.updated_cache), after);
}

#[test]
fn quiet_run_leaves_nothing_to_store() {
    let following = followed(&[("k", "raw", "Shown", 3)]);
    let run = reconcile(&following, episodes(&[("k", "raw", 3)]), &episodes(&[("k", "raw", 3), ("o", "Other", 8)]));
    let r = report(run);
    assert_eq!(r.message, "There are no updates!");
    assert!(r.store.is_none());
}

#[test]
fn run_with_news_leaves_the_cache_to_store() {
    let following = followed(&[("z", "rz", "Zeta", 3), ("a", "ra", "Alpha", 1)]);
    let feed = episodes(&[("z", "Zeta raw", 4), ("n", "Newcomer", 1), ("a", "Alpha raw", 2)]);
    let r = report(reconcile(&following, Updates::new(), &feed));
    assert_eq!(
        r.message,
        "This is the latest anime update:\n\n\
— Ep. 2 for 'Alpha' is out (Alpha raw)\n\
— Ep. 4 for 'Zeta' is out (Zeta raw)\n\
\nWe have new series coming up!\n— Newcomer\n"
    );
    let store = r.store.unwrap();
    assert_eq!(
        flat(&store),
        vec![
            ("z".to_string(), "Zeta raw".to_string(), 4),
            ("a".to_string(), "Alpha raw".to_string(), 2),
        ]
    );
}

#[test]
fn run_with_discoveries_alone_announces_them() {
    let following = followed(&[("k", "raw", "Shown", 3)]);
    let r = report(reconcile(&following, Updates::new(), &episodes(&[("n", "Newcomer", 1)])));
    assert_eq!(
        r.message,
        "This is the latest anime update:\n\nWe have new series coming up!\n— Newcomer\n"
    );
    assert_eq!(flat(&r.store.unwrap()), Vec::<(String, String, i16)>::new());
}

#[test]
fn announcement_of_episodes_alone() {
    let notes = vec![Notification {
        display_name: "Shown".to_string(),
        episode: 12,
        raw_name: "raw".to_string(),
    }];
    assert_eq!(
        render_announcement(&notes, &Vec::new()),
        "This is the latest anime update:\n\n— Ep. 12 for 'Shown' is out (raw)\n"
    );
}

#[test]
fn notifications_sort_by_display_name() {
    let note = |name: &str, episode: i16| Notification {
        display_name: name.to_string(),
        episode,
        raw_name: String::new(),
    };
    let sorted = sort_ranked(vec![note("b", 1), note("a", 2), note("c", 3), note("a", 4), note("B", 5)]);
    let order: Vec<(String, i16)> =
        sorted.iter().map(|n| (n.display_name.clone(), n.episode)).collect();
    assert_eq!(
        order,
        vec![
            ("B".to_string(), 5),
            ("a".to_string(), 2),
            ("a".to_string(), 4),
            ("b".to_string(), 1),
            ("c".to_string(), 3),
        ]
    );
    assert!(sort_ranked(Vec::<Notification>::new()).is_empty());
}
