//! What is shown of the catalogue: the episodes that are out and not yet
//! watched, the series in listing order, and the buttons to pick one.

use crate::anime::{AniInfo, Follows, InfoView, MinInfoView, Updates};
use crate::order::{ranked, sort_ranked, views, Ranked};
use crate::text::{
    lemma_text_le_total, lemma_text_le_transitive, str_le, text_le,
};
use vstd::prelude::*;
use vstd::string::*;
use vstd::utf8::*;

verus! {

/// The model of a [`WatchGap`].
pub struct GapView {
    pub display_name: Seq<char>,
    pub first: int,
    pub last: int,
}

/// The episodes of a followed series that are out and not yet watched: from
/// `first` up to `last`, both counted.
#[derive(Debug)]
pub struct WatchGap {
    pub display_name: String,
    pub first: i16,
    pub last: i16,
}

impl View for WatchGap {
    type V = GapView;

    open spec fn view(&self) -> GapView {
        GapView {
            display_name: self.display_name@,
            first: self.first as int,
            last: self.last as int,
        }
    }
}

impl Ranked for WatchGap {
    open spec fn rank_le(a: GapView, b: GapView) -> bool {
        text_le(a.display_name, b.display_name)
    }

    fn precedes(&self, other: &Self) -> (r: bool) {
        str_le(self.display_name.as_str(), other.display_name.as_str())
    }

    proof fn rank_total(a: GapView, b: GapView) {
        lemma_text_le_total(a.display_name, b.display_name);
    }

    proof fn rank_transitive(a: GapView, b: GapView, c: GapView) {
        lemma_text_le_transitive(a.display_name, b.display_name, c.display_name);
    }
}

impl WatchGap {
    /// Whether one episode alone is waiting.
    pub fn is_single(&self) -> (r: bool)
        ensures
            r == (self@.first == self@.last),
    {
        self.first == self.last
    }
}

/// An episode is out that the followed series has not reached.
pub open spec fn is_behind(
    cache: Map<Seq<char>, MinInfoView>,
    entry: (Seq<char>, InfoView),
) -> bool {
    cache.contains_key(entry.0) && cache[entry.0].last_episode > entry.1.info.last_episode
}

/// The episodes that wait for a followed series that is behind.
pub open spec fn gap_of(cache: Map<Seq<char>, MinInfoView>, entry: (Seq<char>, InfoView)) -> GapView {
    GapView {
        display_name: entry.1.extra.en_name,
        first: entry.1.info.last_episode + 1,
        last: cache[entry.0].last_episode,
    }
}

/// The gaps of the followed series that are behind, in the order in which
/// the series stand.
pub open spec fn gaps_of(
    following: Seq<(Seq<char>, InfoView)>,
    cache: Map<Seq<char>, MinInfoView>,
) -> Seq<GapView>
    decreases following.len(),
{
    if following.len() == 0 {
        Seq::empty()
    } else if is_behind(cache, following.last()) {
        gaps_of(following.drop_last(), cache).push(gap_of(cache, following.last()))
    } else {
        gaps_of(following.drop_last(), cache)
    }
}

/// One followed series has one gap where it is behind, from the episode after
/// the one watched last to the one announced last, and none otherwise.
pub proof fn lemma_one_series(cache: Map<Seq<char>, MinInfoView>, entry: (Seq<char>, InfoView))
    ensures
        is_behind(cache, entry) ==> gaps_of(seq![entry], cache) == seq![gap_of(cache, entry)],
        !is_behind(cache, entry) ==> gaps_of(seq![entry], cache).len() == 0,
{
    reveal_with_fuel(gaps_of, 2);
}

/// The gaps of the followed series that are behind what was announced, in
/// the order in which the series stand. A series that has caught up, or of
/// which nothing was announced, has no gap.
pub fn gaps_in_order(following: &Follows, updates: &Updates) -> (r: Vec<WatchGap>)
    requires
        following.wf(),
        updates.wf(),
    ensures
        views(r@) == gaps_of(following.following.model(), updates@),
        r@.len() == gaps_of(following.following.model(), updates@).len(),
{
    let ghost entries = following.following.model();
    let mut out: Vec<WatchGap> = Vec::new();
    let mut i: usize = 0;
    while i < following.following.entries.len()
        invariant
            i <= following.following.entries.len(),
            entries == following.following.model(),
            updates.wf(),
            views(out@) == gaps_of(entries.take(i as int), updates@),
        decreases following.following.entries.len() - i,
    {
        let key = &following.following.entries[i].0;
        let info = &following.following.entries[i].1;
        proof {
            let next = entries.take(i + 1);
            assert(next.drop_last() =~= entries.take(i as int));
        }
        match updates.updates.get(key.as_str()) {
            Some(announced) => {
                if announced.last_episode > info.info.last_episode {
                    out.push(
                        WatchGap {
                            display_name: info.extra.en_name.clone(),
                            first: info.info.last_episode + 1,
                            last: announced.last_episode,
                        },
                    );
                }
            },
            None => {},
        }
        i += 1;
    }
    assert(entries.take(i as int) =~= entries);
    out
}

/// The gaps of the followed series that are behind what was announced,
/// ordered by the series' localized names.
pub fn gaps(following: &Follows, updates: &Updates) -> (r: Vec<WatchGap>)
    requires
        following.wf(),
        updates.wf(),
    ensures
        ranked::<WatchGap>(views(r@)),
        views(r@).to_multiset() == gaps_of(following.following.model(), updates@).to_multiset(),
        r@.len() == gaps_of(following.following.model(), updates@).len(),
{
    let found = gaps_in_order(following, updates);
    sort_ranked(found)
}

/// How the followed series stand against what was announced.
#[derive(Debug)]
pub enum WatchReport {
    /// No series is followed.
    NothingFollowed,
    /// Series are followed, and none is behind.
    CaughtUp,
    /// The gaps of the series that are behind, ordered by localized name.
    Behind(Vec<WatchGap>),
}

/// Reports how the followed series stand against what was announced.
pub fn watch_report(following: &Follows, updates: &Updates) -> (r: WatchReport)
    requires
        following.wf(),
        updates.wf(),
    ensures
        match r {
            WatchReport::NothingFollowed => following.following.model().len() == 0,
            WatchReport::CaughtUp => following.following.model().len() > 0 && gaps_of(
                following.following.model(),
                updates@,
            ).len() == 0,
            WatchReport::Behind(found) => following.following.model().len() > 0 && found@.len()
                > 0 && ranked::<WatchGap>(views(found@)) && views(found@).to_multiset() == gaps_of(
                following.following.model(),
                updates@,
            ).to_multiset(),
        },
{
    if following.following.len() == 0 {
        return WatchReport::NothingFollowed;
    }
    let found = gaps(following, updates);
    if found.len() == 0 {
        WatchReport::CaughtUp
    } else {
        WatchReport::Behind(found)
    }
}

/// The values of the entries, in order.
pub open spec fn values_of<T>(s: Seq<(Seq<char>, T)>) -> Seq<T> {
    Seq::new(s.len(), |i: int| s[i].1)
}

/// The series of a collection in listing order: by localized name, and by
/// the name in the series' own language where the localized names are the
/// same.
pub fn listing(series: &Follows) -> (r: Vec<AniInfo>)
    ensures
        ranked::<AniInfo>(views(r@)),
        views(r@).to_multiset() == values_of(series.following.model()).to_multiset(),
        r@.len() == series.following.model().len(),
{
    let ghost entries = series.following.model();
    let mut out: Vec<AniInfo> = Vec::new();
    let mut i: usize = 0;
    while i < series.following.entries.len()
        invariant
            i <= series.following.entries.len(),
            entries == series.following.model(),
            views(out@) == values_of(entries.take(i as int)),
        decreases series.following.entries.len() - i,
    {
        out.push(series.following.entries[i].1.clone());
        proof {
            assert(values_of(entries.take(i + 1)) =~= values_of(entries.take(i as int)).push(
                entries[i as int].1,
            ));
        }
        i += 1;
    }
    assert(entries.take(i as int) =~= entries);
    sort_ranked(out)
}

/// The model of a [`Button`].
pub struct ButtonView {
    pub label: Seq<char>,
    pub key: Seq<char>,
}

/// A choice offered to the user: the text shown, and the key it stands for.
#[derive(Debug)]
pub struct Button {
    pub label: String,
    pub key: String,
}

impl View for Button {
    type V = ButtonView;

    open spec fn view(&self) -> ButtonView {
        ButtonView { label: self.label@, key: self.key@ }
    }
}

impl Ranked for Button {
    open spec fn rank_le(a: ButtonView, b: ButtonView) -> bool {
        text_le(a.label, b.label)
    }

    fn precedes(&self, other: &Self) -> (r: bool) {
        str_le(self.label.as_str(), other.label.as_str())
    }

    proof fn rank_total(a: ButtonView, b: ButtonView) {
        lemma_text_le_total(a.label, b.label);
    }

    proof fn rank_transitive(a: ButtonView, b: ButtonView, c: ButtonView) {
        lemma_text_le_transitive(a.label, b.label, c.label);
    }
}

/// The most bytes that a button's label may have.
pub const LABEL_LIMIT: usize = 128;

/// The last place at or before `i` where a character of the text begins or
/// the text ends.
pub open spec fn boundary_before(bytes: Seq<u8>, i: int) -> int
    decreases i,
{
    if i <= 0 || is_char_boundary(bytes, i) {
        i
    } else {
        boundary_before(bytes, i - 1)
    }
}

/// The number of bytes that a label keeps of a name: all of them where they
/// are within the limit, else as many whole characters as the limit holds.
pub open spec fn clip_len(bytes: Seq<u8>) -> int {
    if bytes.len() <= LABEL_LIMIT {
        bytes.len() as int
    } else {
        boundary_before(bytes, LABEL_LIMIT as int)
    }
}

/// The label for a name: the name itself, or its longest beginning of whole
/// characters that is within the limit.
pub fn clip_label(name: &str) -> (r: String)
    ensures
        r@.len() <= name@.len(),
        encode_utf8(r@) == name.spec_bytes().subrange(0, clip_len(name.spec_bytes())),
        name.spec_bytes().len() <= LABEL_LIMIT ==> r@ == name@,
{
    proof {
        encode_utf8_valid_utf8(name@);
        encode_utf8_decode_utf8(name@);
    }
    if name.as_bytes().len() <= LABEL_LIMIT {
        return name.to_owned();
    }
    let mut at: usize = LABEL_LIMIT;
    while !name.is_char_boundary(at)
        invariant
            at <= LABEL_LIMIT,
            LABEL_LIMIT < name.spec_bytes().len(),
            valid_utf8(name.spec_bytes()),
            boundary_before(name.spec_bytes(), LABEL_LIMIT as int) == boundary_before(
                name.spec_bytes(),
                at as int,
            ),
        decreases at,
    {
        at -= 1;
    }
    let (head, _) = name.split_at(at);
    let r = head.to_owned();
    proof {
        let bytes = name.spec_bytes();
        encode_utf8_decode_utf8(r@);
        decode_utf8_split(bytes, at as int);
        valid_utf8_split(bytes, at as int);
    }
    r
}

/// The buttons of the entries before any label is cut: each series' localized
/// name with its key.
pub open spec fn buttons_of(following: Seq<(Seq<char>, InfoView)>) -> Seq<ButtonView> {
    Seq::new(
        following.len(),
        |i: int| ButtonView { label: following[i].1.extra.en_name, key: following[i].0 },
    )
}

/// One button for each followed series, under its localized name and ordered
/// by it.
pub fn name_buttons(following: &Follows) -> (r: Vec<Button>)
    ensures
        ranked::<Button>(views(r@)),
        views(r@).to_multiset() == buttons_of(following.following.model()).to_multiset(),
        r@.len() == following.following.model().len(),
{
    let ghost entries = following.following.model();
    let mut out: Vec<Button> = Vec::new();
    let mut i: usize = 0;
    while i < following.following.entries.len()
        invariant
            i <= following.following.entries.len(),
            entries == following.following.model(),
            views(out@) == buttons_of(entries.take(i as int)),
        decreases following.following.entries.len() - i,
    {
        let ghost button = ButtonView {
            label: entries[i as int].1.extra.en_name,
            key: entries[i as int].0,
        };
        out.push(
            Button {
                label: following.following.entries[i].1.extra.en_name.clone(),
                key: following.following.entries[i].0.clone(),
            },
        );
        proof {
            assert(buttons_of(entries.take(i + 1)) =~= buttons_of(entries.take(i as int)).push(
                button,
            ));
        }
        i += 1;
    }
    assert(entries.take(i as int) =~= entries);
    sort_ranked(out)
}

/// The keyboard from which a followed series is picked: the buttons of
/// [`name_buttons`] in their order, each label cut to the limit.
pub fn following_keyboard(following: &Follows) -> (r: Vec<Button>)
    ensures
        r@.len() == following.following.model().len(),
        exists|full: Seq<ButtonView>|
            {
                &&& ranked::<Button>(full)
                &&& full.to_multiset() == buttons_of(following.following.model()).to_multiset()
                &&& full.len() == r@.len()
                &&& forall|i: int|
                    0 <= i < full.len() ==> {
                        &&& (#[trigger] r@[i]).key@ == full[i].key
                        &&& encode_utf8(r@[i].label@) == encode_utf8(full[i].label).subrange(
                            0,
                            clip_len(encode_utf8(full[i].label)),
                        )
                    }
            },
{
    let named = name_buttons(following);
    let ghost full = views(named@);
    let mut out: Vec<Button> = Vec::new();
    let mut i: usize = 0;
    while i < named.len()
        invariant
            i <= named.len(),
            full == views(named@),
            out@.len() == i,
            forall|j: int|
                0 <= j < i ==> {
                    &&& (#[trigger] out@[j]).key@ == full[j].key
                    &&& encode_utf8(out@[j].label@) == encode_utf8(full[j].label).subrange(
                        0,
                        clip_len(encode_utf8(full[j].label)),
                    )
                },
        decreases named.len() - i,
    {
        let label = clip_label(named[i].label.as_str());
        out.push(Button { label, key: named[i].key.clone() });
        i += 1;
    }
    out
}

} // verus!
