//! The catalogue's data: what is known of a series, and the collections of
//! followed, announced and finished series.

use crate::table::Table;
use crate::order::Ranked;
use crate::text::{
    decimal, decimal_string, lemma_text_le_antisymmetric, lemma_text_le_reflexive,
    lemma_text_le_total, lemma_text_le_transitive, str_eq, str_le, text_le,
};
use vstd::prelude::*;
use vstd::std_specs::cmp::PartialEqSpecImpl;
use vstd::string::*;

verus! {

/// The season in which a series airs, with its year, where it is known.
#[derive(Debug, Clone, Copy, PartialEq, Eq, Structural)]
pub enum AnimeSeason {
    Winter(u16),
    Spring(u16),
    Summer(u16),
    Autumn(u16),
    Unknown,
}

impl AnimeSeason {
    /// The season as it is shown: its name and year, or `Unknown`.
    pub open spec fn text(self) -> Seq<char> {
        match self {
            AnimeSeason::Winter(y) => "Winter "@ + decimal(y as nat),
            AnimeSeason::Spring(y) => "Spring "@ + decimal(y as nat),
            AnimeSeason::Summer(y) => "Summer "@ + decimal(y as nat),
            AnimeSeason::Autumn(y) => "Autumn "@ + decimal(y as nat),
            AnimeSeason::Unknown => "Unknown"@,
        }
    }

    /// Renders the season as it is shown.
    pub fn to_string(&self) -> (r: String)
        ensures
            r@ == self.text(),
    {
        match self {
            AnimeSeason::Winter(y) => String::from_str("Winter ").concat(
                decimal_string(*y as u64).as_str(),
            ),
            AnimeSeason::Spring(y) => String::from_str("Spring ").concat(
                decimal_string(*y as u64).as_str(),
            ),
            AnimeSeason::Summer(y) => String::from_str("Summer ").concat(
                decimal_string(*y as u64).as_str(),
            ),
            AnimeSeason::Autumn(y) => String::from_str("Autumn ").concat(
                decimal_string(*y as u64).as_str(),
            ),
            AnimeSeason::Unknown => String::from_str("Unknown"),
        }
    }
}

/// The model of an [`AniMinInfo`].
pub struct MinInfoView {
    pub name: Seq<char>,
    pub last_episode: int,
}

/// The highest episode known of a series, under the name it has in its own
/// language.
#[derive(Debug, Eq)]
pub struct AniMinInfo {
    pub name: String,
    pub last_episode: i16,
}

impl View for AniMinInfo {
    type V = MinInfoView;

    open spec fn view(&self) -> MinInfoView {
        MinInfoView { name: self.name@, last_episode: self.last_episode as int }
    }
}

impl Clone for AniMinInfo {
    fn clone(&self) -> (r: Self)
        ensures
            r == *self,
    {
        AniMinInfo { name: self.name.clone(), last_episode: self.last_episode }
    }
}

impl PartialEq for AniMinInfo {
    fn eq(&self, other: &Self) -> (r: bool) {
        self.name == other.name && self.last_episode == other.last_episode
    }
}

impl PartialEqSpecImpl for AniMinInfo {
    open spec fn obeys_eq_spec() -> bool {
        true
    }

    open spec fn eq_spec(&self, other: &Self) -> bool {
        self.name@ == other.name@ && self.last_episode == other.last_episode
    }
}

impl AniMinInfo {
    /// Whether `self` comes before `other`, or beside it, by name.
    pub fn precedes(&self, other: &Self) -> (r: bool)
        ensures
            r == text_le(self@.name, other@.name),
    {
        str_le(self.name.as_str(), other.name.as_str())
    }
}

/// The model of an [`AniExtraInfo`].
pub struct ExtraInfoView {
    pub en_name: Seq<char>,
    pub season: AnimeSeason,
}

/// What a feed does not tell of a series: its localized name and its season.
#[derive(Debug, Eq)]
pub struct AniExtraInfo {
    pub en_name: String,
    pub season: AnimeSeason,
}

impl View for AniExtraInfo {
    type V = ExtraInfoView;

    open spec fn view(&self) -> ExtraInfoView {
        ExtraInfoView { en_name: self.en_name@, season: self.season }
    }
}

impl Clone for AniExtraInfo {
    fn clone(&self) -> (r: Self)
        ensures
            r == *self,
    {
        AniExtraInfo { en_name: self.en_name.clone(), season: self.season }
    }
}

impl Default for AniExtraInfo {
    /// No localized name, and a season that is not known.
    fn default() -> (r: Self)
        ensures
            r@ == (ExtraInfoView { en_name: Seq::empty(), season: AnimeSeason::Unknown }),
    {
        AniExtraInfo { en_name: String::new(), season: AnimeSeason::Unknown }
    }
}

impl PartialEq for AniExtraInfo {
    fn eq(&self, other: &Self) -> (r: bool) {
        self.en_name == other.en_name
    }
}

impl PartialEqSpecImpl for AniExtraInfo {
    open spec fn obeys_eq_spec() -> bool {
        true
    }

    open spec fn eq_spec(&self, other: &Self) -> bool {
        self.en_name@ == other.en_name@
    }
}

impl AniExtraInfo {
    /// Whether `self` comes before `other`, or beside it, by localized name.
    pub fn precedes(&self, other: &Self) -> (r: bool)
        ensures
            r == text_le(self@.en_name, other@.en_name),
    {
        str_le(self.en_name.as_str(), other.en_name.as_str())
    }
}

/// The model of an [`AniInfo`].
pub struct InfoView {
    pub info: MinInfoView,
    pub extra: ExtraInfoView,
}

/// A followed or finished series: the episode reached, and its enrichment.
#[derive(Debug, Eq)]
pub struct AniInfo {
    pub info: AniMinInfo,
    pub extra: AniExtraInfo,
}

impl View for AniInfo {
    type V = InfoView;

    open spec fn view(&self) -> InfoView {
        InfoView { info: self.info@, extra: self.extra@ }
    }
}

impl Clone for AniInfo {
    fn clone(&self) -> (r: Self)
        ensures
            r == *self,
    {
        AniInfo { info: self.info.clone(), extra: self.extra.clone() }
    }
}

impl PartialEq for AniInfo {
    fn eq(&self, other: &Self) -> (r: bool) {
        self.extra == other.extra && self.info == other.info
    }
}

impl PartialEqSpecImpl for AniInfo {
    open spec fn obeys_eq_spec() -> bool {
        true
    }

    open spec fn eq_spec(&self, other: &Self) -> bool {
        self.extra@.en_name == other.extra@.en_name && self.info@ == other.info@
    }
}

/// The order in which series are listed: by localized name, and by the name
/// in the series' own language where the localized names are the same.
pub open spec fn listing_le(a: InfoView, b: InfoView) -> bool {
    if a.extra.en_name == b.extra.en_name {
        text_le(a.info.name, b.info.name)
    } else {
        text_le(a.extra.en_name, b.extra.en_name)
    }
}

impl AniInfo {
    /// Whether the two values agree in every field, the season included.
    pub fn identical(&self, other: &Self) -> (r: bool)
        ensures
            r == (self@ == other@),
    {
        let r = str_eq(self.info.name.as_str(), other.info.name.as_str())
            && self.info.last_episode == other.info.last_episode && str_eq(
            self.extra.en_name.as_str(),
            other.extra.en_name.as_str(),
        ) && self.extra.season == other.extra.season;
        r
    }
}

impl Ranked for AniInfo {
    open spec fn rank_le(a: InfoView, b: InfoView) -> bool {
        listing_le(a, b)
    }

    fn precedes(&self, other: &Self) -> (r: bool) {
        if str_eq(self.extra.en_name.as_str(), other.extra.en_name.as_str()) {
            str_le(self.info.name.as_str(), other.info.name.as_str())
        } else {
            str_le(self.extra.en_name.as_str(), other.extra.en_name.as_str())
        }
    }

    proof fn rank_total(a: InfoView, b: InfoView) {
        lemma_text_le_total(a.info.name, b.info.name);
        lemma_text_le_total(a.extra.en_name, b.extra.en_name);
    }

    proof fn rank_transitive(a: InfoView, b: InfoView, c: InfoView) {
        let (x, y, z) = (a.extra.en_name, b.extra.en_name, c.extra.en_name);
        if x == y && y == z {
            lemma_text_le_transitive(a.info.name, b.info.name, c.info.name);
        } else {
            lemma_text_le_reflexive(x);
            lemma_text_le_reflexive(z);
            lemma_text_le_transitive(x, y, z);
            if x == z {
                lemma_text_le_antisymmetric(x, y);
            }
        }
    }
}

/// The series that are followed, or those that are finished, each under its
/// key with the episode that was watched last.
#[derive(Debug)]
pub struct Follows {
    pub following: Table<AniInfo>,
}

impl View for Follows {
    type V = Map<Seq<char>, InfoView>;

    open spec fn view(&self) -> Map<Seq<char>, InfoView> {
        self.following@
    }
}

impl Follows {
    /// No key occurs twice.
    pub open spec fn wf(&self) -> bool {
        self.following.wf()
    }

    /// A collection without series.
    pub fn new() -> (r: Self)
        ensures
            r.wf(),
            r@ == Map::<Seq<char>, InfoView>::empty(),
            r.following.model().len() == 0,
    {
        Follows { following: Table::new() }
    }
}

/// The episode that was announced last, for each series under its key.
#[derive(Debug)]
pub struct Updates {
    pub updates: Table<AniMinInfo>,
}

impl View for Updates {
    type V = Map<Seq<char>, MinInfoView>;

    open spec fn view(&self) -> Map<Seq<char>, MinInfoView> {
        self.updates@
    }
}

impl Updates {
    /// No key occurs twice.
    pub open spec fn wf(&self) -> bool {
        self.updates.wf()
    }

    /// A collection without series.
    pub fn new() -> (r: Self)
        ensures
            r.wf(),
            r@ == Map::<Seq<char>, MinInfoView>::empty(),
            r.updates.model().len() == 0,
    {
        Updates { updates: Table::new() }
    }
}

} // verus!
