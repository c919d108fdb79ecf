use ceres::anime::{AniExtraInfo, AniInfo, AniMinInfo, AnimeSeason, Follows, Updates};
use ceres::messages::{
    describe_gap, render_finished, render_following, render_listing_line, render_watchlist,
};
use ceres::watch::{
    clip_label, following_keyboard, gaps, gaps_in_order, listing, name_buttons, watch_report,
    WatchGap, WatchReport,
};

fn followed(list: &[(&str, &str, &str, i16)]) -> Follows {
    let mut f = Follows::new();
    for (key, name, en_name, episode) in list {
        f.following.insert(
            key.to_string(),
            AniInfo {
                info: AniMinInfo { name: name.to_string(), last_episode: *episode },
                extra: AniExtraInfo {
                    en_name: en_name.to_string(),
                    season: AnimeSeason::Autumn(2022),
                },
            },
        );
    }
    f
}

fn announced(list: &[(&str, i16)]) -> Updates {
    let mut u = Updates::new();
    for (key, episode) in list {
        u.updates.insert(key.to_string(), AniMinInfo { name: String::new(), last_episode: *episode });
    }
    u
}

fn flat(gaps: &[WatchGap]) -> Vec<(String, i16, i16)> {
    gaps.iter().map(|g| (g.display_name.clone(), g.first, g.last)).collect()
}

#[test]
fn gap_of_several_episodes_is_a_range() {
    let found = gaps(&followed(&[("k", "raw", "Shown", 2)]), &announced(&[("k", 5)]));
    assert_eq!(flat(&found), vec![("Shown".to_string(), 3, 5)]);
    assert!(!found[0].is_single());
    assert_eq!(describe_gap(&found[0]), "from 3 up to Ep.5");
}

#[test]
fn gap_of_one_episode_is_single() {
    let found = gaps(&followed(&[("k", "raw", "Shown", 4)]), &announced(&[("k", 5)]));
    assert_eq!(flat(&found), vec![("Shown".to_string(), 5, 5)]);
    assert!(found[0].is_single());
    assert_eq!(describe_gap(&found[0]), "just Ep. 5");
}

#[test]
fn series_that_caught_up_or_were_never_announced_have_no_gap() {
    let following = followed(&[("a", "ra", "A", 5), ("b", "rb", "B", 6), ("c", "rc", "C", 1)]);
    let found = gaps(&following, &announced(&[("a", 5), ("b", 5), ("other", 9)]));
    assert!(found.is_empty());
}

#[test]
fn gaps_come_ordered_by_display_name() {
    let following = followed(&[
        ("1", "r1", "Zeta", 1),
        ("2", "r2", "alpha", 1),
        ("3", "r3", "Beta", 3),
        ("4", "r4", "Alpha", 0),
    ]);
    let cache = announced(&[("1", 2), ("2", 4), ("3", 3), ("4", 1)]);
    assert_eq!(
        flat(&gaps_in_order(&following, &cache)),
        vec![("Zeta".to_string(), 2, 2), ("alpha".to_string(), 2, 4), ("Alpha".to_string(), 1, 1)]
    );
    assert_eq!(
        flat(&gaps(&following, &cache)),
        vec![("Alpha".to_string(), 1, 1), ("Zeta".to_string(), 2, 2), ("alpha".to_string(), 2, 4)]
    );
}

#[test]
fn report_tells_nothing_followed_from_caught_up() {
    assert!(matches!(
        watch_report(&Follows::new(), &announced(&[("k", 5)])),
        WatchReport::NothingFollowed
    ));
    assert!(matches!(
        watch_report(&followed(&[("k", "raw", "Shown", 5)]), &announced(&[("k", 5)])),
        WatchReport::CaughtUp
    ));
    assert!(matches!(
        watch_report(&followed(&[("k", "raw", "Shown", 5)]), &Updates::new()),
        WatchReport::CaughtUp
    ));
    match watch_report(&followed(&[("k", "raw", "Shown", 2)]), &announced(&[("k", 5)])) {
        WatchReport::Behind(found) => assert_eq!(flat(&found), vec![("Shown".to_string(), 3, 5)]),
        other => panic!("unexpected report {:?}", other),
    }
}

#[test]
fn watchlist_text() {
    let up_to_date = "We are up to date according to the latest Update data.";
    assert_eq!(render_watchlist(&WatchReport::NothingFollowed), up_to_date);
    assert_eq!(render_watchlist(&WatchReport::CaughtUp), up_to_date);
    let following = followed(&[("1", "r1", "Zeta", 2), ("2", "r2", "Alpha", 4)]);
    let report = watch_report(&following, &announced(&[("1", 5), ("2", 5)]));
    assert_eq!(
        render_watchlist(&report),
        "This is our watchlist:\n· Alpha\n    → just Ep. 5\n· Zeta\n    → from 3 up to Ep.5\n"
    );
}

#[test]
fn listing_comes_in_listing_order() {
    let following = followed(&[
        ("1", "r1", "Zeta", 1),
        ("2", "rb", "Same", 2),
        ("3", "r3", "Alpha", 3),
        ("4", "ra", "Same", 4),
    ]);
    let order: Vec<(String, String)> = listing(&following)
        .iter()
        .map(|s| (s.extra.en_name.clone(), s.info.name.clone()))
        .collect();
    assert_eq!(
        order,
        vec![
            ("Alpha".to_string(), "r3".to_string()),
            ("Same".to_string(), "ra".to_string()),
            ("Same".to_string(), "rb".to_string()),
            ("Zeta".to_string(), "r1".to_string()),
        ]
    );
    assert!(listing(&Follows::new()).is_empty());
}

#[test]
fn listing_text() {
    assert_eq!(render_following(&Follows::new()), "We are not following any anime series.");
    assert_eq!(render_finished(&Follows::new()), "We haven't finished any anime series.");
    let following = followed(&[("1", "r1", "Zeta", 12), ("2", "r2", "Alpha", 3)]);
    assert_eq!(
        render_following(&following),
        "We are following these anime series:\n\n\
— Alpha [Autumn 2022] - Ep. 3\n— Zeta [Autumn 2022] - Ep. 12\n"
    );
    assert_eq!(
        render_finished(&following),
        "We have finished these anime series:\n\n\
— Alpha [Autumn 2022] - Ep. 3\n— Zeta [Autumn 2022] - Ep. 12\n"
    );
    let unknown = AniInfo {
        info: AniMinInfo { name: "r".to_string(), last_episode: 0 },
        extra: AniExtraInfo::default(),
    };
    assert_eq!(render_listing_line(&unknown), "—  [Unknown] - Ep. 0\n");
}

#[test]
fn labels_keep_at_most_the_limit_in_whole_characters() {
    assert_eq!(clip_label(""), "");
    assert_eq!(clip_label("short"), "short");
    let exact = "x".repeat(128);
    assert_eq!(clip_label(&exact), exact);
    let long = "x".repeat(300);
    assert_eq!(clip_label(&long), exact);
    let wide = "é".repeat(100);
    assert_eq!(clip_label(&wide), "é".repeat(64));
    let odd = format!("a{}", "é".repeat(100));
    assert_eq!(clip_label(&odd), format!("a{}", "é".repeat(63)));
    assert_eq!(clip_label(&odd).len(), 127);
    let kanji = "日".repeat(50);
    assert_eq!(clip_label(&kanji), "日".repeat(42));
    let astral = format!("ab{}", "😀".repeat(40));
    assert_eq!(clip_label(&astral), format!("ab{}", "😀".repeat(31)));
}

#[test]
fn keyboard_has_a_button_for_each_series_ordered_by_name() {
    let long = "y".repeat(200);
    let following = followed(&[("k1", "r1", "Zeta", 1), ("k2", "r2", &long, 2), ("k3", "r3", "Alpha", 3)]);
    let named: Vec<(String, String)> =
        name_buttons(&following).iter().map(|b| (b.label.clone(), b.key.clone())).collect();
    assert_eq!(
        named,
        vec![
            ("Alpha".to_string(), "k3".to_string()),
            ("Zeta".to_string(), "k1".to_string()),
            (long.clone(), "k2".to_string()),
        ]
    );
    let keys: Vec<(String, String)> =
        following_keyboard(&following).iter().map(|b| (b.label.clone(), b.key.clone())).collect();
    assert_eq!(
        keys,
        vec![
            ("Alpha".to_string(), "k3".to_string()),
            ("Zeta".to_string(), "k1".to_string()),
            ("y".repeat(128), "k2".to_string()),
        ]
    );
    assert!(following_keyboard(&Follows::new()).is_empty());
}
