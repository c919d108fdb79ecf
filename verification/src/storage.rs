//! The stored shape of the collections: a tree of named fields, and how the
//! collections are written to it and read from it.

use crate::anime::{
    AniExtraInfo, AniInfo, AniMinInfo, AnimeSeason, ExtraInfoView, Follows, InfoView, MinInfoView,
    Updates,
};
use crate::table::{assoc_has, assoc_put, assoc_slot, Table};
use crate::text::str_eq;
use vstd::prelude::*;
use vstd::string::*;

verus! {

/// A stored value: a text, a whole number, named fields in order, or
/// anything else.
#[derive(Debug)]
pub enum Node {
    Text(String),
    Number(i64),
    Object(Vec<(String, Node)>),
    Other,
}

/// The place of the first field called `name` at or after `from`.
pub open spec fn field_from(fields: Seq<(String, Node)>, name: Seq<char>, from: int) -> Option<int>
    decreases fields.len() - from,
{
    if from < 0 || from >= fields.len() {
        None
    } else if fields[from].0@ == name {
        Some(from)
    } else {
        field_from(fields, name, from + 1)
    }
}

/// The first field called `name`.
pub open spec fn field_of(fields: Seq<(String, Node)>, name: Seq<char>) -> Option<Node> {
    match field_from(fields, name, 0) {
        Some(i) => Some(fields[i].1),
        None => None,
    }
}

/// The text that a node holds.
pub open spec fn text_of(node: Option<Node>) -> Option<Seq<char>> {
    match node {
        Some(Node::Text(t)) => Some(t@),
        _ => None,
    }
}

/// The number that a node holds, where it is within the given bounds.
pub open spec fn number_of(node: Option<Node>, low: int, high: int) -> Option<int> {
    match node {
        Some(Node::Number(n)) => if low <= n <= high {
            Some(n as int)
        } else {
            None
        },
        _ => None,
    }
}

/// The fields that a node holds.
pub open spec fn fields_of(node: Option<Node>) -> Option<Seq<(String, Node)>> {
    match node {
        Some(Node::Object(fields)) => Some(fields@),
        _ => None,
    }
}

/// The season that a node stands for: the text `Unknown`, or one field named
/// after the season that holds the year.
pub open spec fn season_of(node: Option<Node>) -> Option<AnimeSeason> {
    match node {
        Some(Node::Text(t)) => if t@ == "Unknown"@ {
            Some(AnimeSeason::Unknown)
        } else {
            None
        },
        Some(Node::Object(fields)) => if fields@.len() == 1 {
            match number_of(Some(fields@[0].1), 0, 65535) {
                Some(y) => if fields@[0].0@ == "Winter"@ {
                    Some(AnimeSeason::Winter(y as u16))
                } else if fields@[0].0@ == "Spring"@ {
                    Some(AnimeSeason::Spring(y as u16))
                } else if fields@[0].0@ == "Summer"@ {
                    Some(AnimeSeason::Summer(y as u16))
                } else if fields@[0].0@ == "Autumn"@ {
                    Some(AnimeSeason::Autumn(y as u16))
                } else {
                    None
                },
                None => None,
            }
        } else {
            None
        },
        _ => None,
    }
}

/// What a node tells of a series' last episode: its fields `name` and
/// `last_episode`.
pub open spec fn min_info_of(node: Option<Node>) -> Option<MinInfoView> {
    match fields_of(node) {
        Some(fields) => match (
            text_of(field_of(fields, "name"@)),
            number_of(field_of(fields, "last_episode"@), i16::MIN as int, i16::MAX as int),
        ) {
            (Some(name), Some(last_episode)) => Some(MinInfoView { name, last_episode }),
            _ => None,
        },
        None => None,
    }
}

/// What a node tells of a series' enrichment: its fields `en_name` and
/// `season`.
pub open spec fn extra_info_of(node: Option<Node>) -> Option<ExtraInfoView> {
    match fields_of(node) {
        Some(fields) => match (
            text_of(field_of(fields, "en_name"@)),
            season_of(field_of(fields, "season"@)),
        ) {
            (Some(en_name), Some(season)) => Some(ExtraInfoView { en_name, season }),
            _ => None,
        },
        None => None,
    }
}

/// What a node tells of a followed series: its fields `info` and `extra`.
pub open spec fn info_of(node: Option<Node>) -> Option<InfoView> {
    match fields_of(node) {
        Some(fields) => match (
            min_info_of(field_of(fields, "info"@)),
            extra_info_of(field_of(fields, "extra"@)),
        ) {
            (Some(info), Some(extra)) => Some(InfoView { info, extra }),
            _ => None,
        },
        None => None,
    }
}

/// Finds the first field called `name`.
pub fn field<'a>(fields: &'a Vec<(String, Node)>, name: &str) -> (r: Option<&'a Node>)
    ensures
        match r {
            Some(node) => field_of(fields@, name@) == Some(*node),
            None => field_of(fields@, name@) is None,
        },
{
    let mut i: usize = 0;
    while i < fields.len()
        invariant
            i <= fields.len(),
            field_from(fields@, name@, 0) == field_from(fields@, name@, i as int),
        decreases fields.len() - i,
    {
        if str_eq(fields[i].0.as_str(), name) {
            return Some(&fields[i].1);
        }
        i += 1;
    }
    None
}

/// Reads the text that a node holds.
pub fn read_text(node: Option<&Node>) -> (r: Option<String>)
    ensures
        match r {
            Some(t) => text_of(deref_node(node)) == Some(t@),
            None => text_of(deref_node(node)) is None,
        },
{
    match node {
        Some(Node::Text(t)) => Some(t.clone()),
        _ => None,
    }
}

/// The node behind a reference, where there is one.
pub open spec fn deref_node(node: Option<&Node>) -> Option<Node> {
    match node {
        Some(n) => Some(*n),
        None => None,
    }
}

/// Reads the number that a node holds, where it is within the given bounds.
pub fn read_number(node: Option<&Node>, low: i64, high: i64) -> (r: Option<i64>)
    ensures
        match r {
            Some(n) => number_of(deref_node(node), low as int, high as int) == Some(n as int),
            None => number_of(deref_node(node), low as int, high as int) is None,
        },
{
    match node {
        Some(Node::Number(n)) => if low <= *n && *n <= high {
            Some(*n)
        } else {
            None
        },
        _ => None,
    }
}

/// Reads the season that a node stands for.
pub fn read_season(node: Option<&Node>) -> (r: Option<AnimeSeason>)
    ensures
        r == season_of(deref_node(node)),
{
    match node {
        Some(Node::Text(t)) => if str_eq(t.as_str(), "Unknown") {
            Some(AnimeSeason::Unknown)
        } else {
            None
        },
        Some(Node::Object(fields)) => {
            if fields.len() != 1 {
                return None;
            }
            match read_number(Some(&fields[0].1), 0, 65535) {
                Some(y) => {
                    let tag = fields[0].0.as_str();
                    if str_eq(tag, "Winter") {
                        Some(AnimeSeason::Winter(y as u16))
                    } else if str_eq(tag, "Spring") {
                        Some(AnimeSeason::Spring(y as u16))
                    } else if str_eq(tag, "Summer") {
                        Some(AnimeSeason::Summer(y as u16))
                    } else if str_eq(tag, "Autumn") {
                        Some(AnimeSeason::Autumn(y as u16))
                    } else {
                        None
                    }
                },
                None => None,
            }
        },
        _ => None,
    }
}

/// Reads what a node tells of a series' last episode.
pub fn read_min_info(node: Option<&Node>) -> (r: Option<AniMinInfo>)
    ensures
        match r {
            Some(info) => min_info_of(deref_node(node)) == Some(info@),
            None => min_info_of(deref_node(node)) is None,
        },
{
    match node {
        Some(Node::Object(fields)) => {
            let name = read_text(field(fields, "name"));
            let last_episode = read_number(field(fields, "last_episode"), -32768, 32767);
            match (name, last_episode) {
                (Some(name), Some(n)) => Some(AniMinInfo { name, last_episode: n as i16 }),
                _ => None,
            }
        },
        _ => None,
    }
}

/// Reads what a node tells of a series' enrichment.
pub fn read_extra_info(node: Option<&Node>) -> (r: Option<AniExtraInfo>)
    ensures
        match r {
            Some(extra) => extra_info_of(deref_node(node)) == Some(extra@),
            None => extra_info_of(deref_node(node)) is None,
        },
{
    match node {
        Some(Node::Object(fields)) => {
            let en_name = read_text(field(fields, "en_name"));
            let season = read_season(field(fields, "season"));
            match (en_name, season) {
                (Some(en_name), Some(season)) => Some(AniExtraInfo { en_name, season }),
                _ => None,
            }
        },
        _ => None,
    }
}

/// Reads what a node tells of a followed series.
pub fn read_info(node: Option<&Node>) -> (r: Option<AniInfo>)
    ensures
        match r {
            Some(info) => info_of(deref_node(node)) == Some(info@),
            None => info_of(deref_node(node)) is None,
        },
{
    match node {
        Some(Node::Object(fields)) => {
            let info = read_min_info(field(fields, "info"));
            let extra = read_extra_info(field(fields, "extra"));
            match (info, extra) {
                (Some(info), Some(extra)) => Some(AniInfo { info, extra }),
                _ => None,
            }
        },
        _ => None,
    }
}

/// The node holds the text `s`.
pub open spec fn is_text(node: Node, s: Seq<char>) -> bool {
    match node {
        Node::Text(t) => t@ == s,
        _ => false,
    }
}

/// The node holds the number `v`.
pub open spec fn is_number(node: Node, v: int) -> bool {
    match node {
        Node::Number(n) => n == v,
        _ => false,
    }
}

/// The node holds one field, called `tag`, with the number `v`.
pub open spec fn is_tagged(node: Node, tag: Seq<char>, v: int) -> bool {
    match node {
        Node::Object(fields) => fields@.len() == 1 && fields@[0].0@ == tag && is_number(
            fields@[0].1,
            v,
        ),
        _ => false,
    }
}

/// The node is the stored form of the season.
pub open spec fn is_season_node(node: Node, season: AnimeSeason) -> bool {
    match season {
        AnimeSeason::Winter(y) => is_tagged(node, "Winter"@, y as int),
        AnimeSeason::Spring(y) => is_tagged(node, "Spring"@, y as int),
        AnimeSeason::Summer(y) => is_tagged(node, "Summer"@, y as int),
        AnimeSeason::Autumn(y) => is_tagged(node, "Autumn"@, y as int),
        AnimeSeason::Unknown => is_text(node, "Unknown"@),
    }
}

/// The node is the stored form of a last episode: the fields `name` and
/// `last_episode`, in this order.
pub open spec fn is_min_info_node(node: Node, info: MinInfoView) -> bool {
    match node {
        Node::Object(fields) => {
            &&& fields@.len() == 2
            &&& fields@[0].0@ == "name"@
            &&& is_text(fields@[0].1, info.name)
            &&& fields@[1].0@ == "last_episode"@
            &&& is_number(fields@[1].1, info.last_episode)
        },
        _ => false,
    }
}

/// The node is the stored form of an enrichment: the fields `en_name` and
/// `season`, in this order.
pub open spec fn is_extra_info_node(node: Node, extra: ExtraInfoView) -> bool {
    match node {
        Node::Object(fields) => {
            &&& fields@.len() == 2
            &&& fields@[0].0@ == "en_name"@
            &&& is_text(fields@[0].1, extra.en_name)
            &&& fields@[1].0@ == "season"@
            &&& is_season_node(fields@[1].1, extra.season)
        },
        _ => false,
    }
}

/// The node is the stored form of a followed series: the fields `info` and
/// `extra`, in this order.
pub open spec fn is_info_node(node: Node, info: InfoView) -> bool {
    match node {
        Node::Object(fields) => {
            &&& fields@.len() == 2
            &&& fields@[0].0@ == "info"@
            &&& is_min_info_node(fields@[0].1, info.info)
            &&& fields@[1].0@ == "extra"@
            &&& is_extra_info_node(fields@[1].1, info.extra)
        },
        _ => false,
    }
}

/// Writes a number.
pub fn write_tagged(tag: &str, v: u16) -> (node: Node)
    ensures
        is_tagged(node, tag@, v as int),
{
    let mut fields: Vec<(String, Node)> = Vec::new();
    fields.push((String::from_str(tag), Node::Number(v as i64)));
    Node::Object(fields)
}

/// Writes a season.
pub fn write_season(season: AnimeSeason) -> (node: Node)
    ensures
        is_season_node(node, season),
{
    match season {
        AnimeSeason::Winter(y) => write_tagged("Winter", y),
        AnimeSeason::Spring(y) => write_tagged("Spring", y),
        AnimeSeason::Summer(y) => write_tagged("Summer", y),
        AnimeSeason::Autumn(y) => write_tagged("Autumn", y),
        AnimeSeason::Unknown => Node::Text(String::from_str("Unknown")),
    }
}

/// Writes a last episode.
pub fn write_min_info(info: &AniMinInfo) -> (node: Node)
    ensures
        is_min_info_node(node, info@),
{
    let mut fields: Vec<(String, Node)> = Vec::new();
    fields.push((String::from_str("name"), Node::Text(info.name.clone())));
    fields.push((String::from_str("last_episode"), Node::Number(info.last_episode as i64)));
    Node::Object(fields)
}

/// Writes an enrichment.
pub fn write_extra_info(extra: &AniExtraInfo) -> (node: Node)
    ensures
        is_extra_info_node(node, extra@),
{
    let mut fields: Vec<(String, Node)> = Vec::new();
    fields.push((String::from_str("en_name"), Node::Text(extra.en_name.clone())));
    fields.push((String::from_str("season"), write_season(extra.season)));
    Node::Object(fields)
}

/// Writes a followed series.
pub fn write_info(info: &AniInfo) -> (node: Node)
    ensures
        is_info_node(node, info@),
{
    let mut fields: Vec<(String, Node)> = Vec::new();
    fields.push((String::from_str("info"), write_min_info(&info.info)));
    fields.push((String::from_str("extra"), write_extra_info(&info.extra)));
    Node::Object(fields)
}

/// The names of the fields differ from each other.
proof fn lemma_field_names()
    ensures
        "name"@ != "last_episode"@,
        "en_name"@ != "season"@,
        "info"@ != "extra"@,
        "Winter"@ != "Spring"@,
        "Winter"@ != "Summer"@,
        "Winter"@ != "Autumn"@,
        "Spring"@ != "Summer"@,
        "Spring"@ != "Autumn"@,
        "Summer"@ != "Autumn"@,
{
    reveal_strlit("name");
    reveal_strlit("last_episode");
    reveal_strlit("en_name");
    reveal_strlit("season");
    reveal_strlit("info");
    reveal_strlit("extra");
    reveal_strlit("Winter");
    reveal_strlit("Spring");
    reveal_strlit("Summer");
    reveal_strlit("Autumn");
    assert("name"@.len() != "last_episode"@.len());
    assert("en_name"@.len() != "season"@.len());
    assert("info"@[0] != "extra"@[0]);
    assert("Winter"@[0] != "Summer"@[0]);
    assert("Spring"@[1] != "Summer"@[1]);
}

/// The stored form of a season reads as that season.
pub proof fn lemma_season_round_trip(node: Node, season: AnimeSeason)
    requires
        is_season_node(node, season),
    ensures
        season_of(Some(node)) == Some(season),
{
    lemma_field_names();
}

/// The stored form of a last episode reads as that last episode.
pub proof fn lemma_min_info_round_trip(node: Node, info: AniMinInfo)
    requires
        is_min_info_node(node, info@),
    ensures
        min_info_of(Some(node)) == Some(info@),
{
    lemma_field_names();
    reveal_with_fuel(field_from, 3);
}

/// The stored form of an enrichment reads as that enrichment.
pub proof fn lemma_extra_info_round_trip(node: Node, extra: AniExtraInfo)
    requires
        is_extra_info_node(node, extra@),
    ensures
        extra_info_of(Some(node)) == Some(extra@),
{
    lemma_field_names();
    reveal_with_fuel(field_from, 3);
    match node {
        Node::Object(fields) => {
            lemma_season_round_trip(fields@[1].1, extra.season);
        },
        _ => {},
    }
}

/// The stored form of a followed series reads as that series.
pub proof fn lemma_info_round_trip(node: Node, info: AniInfo)
    requires
        is_info_node(node, info@),
    ensures
        info_of(Some(node)) == Some(info@),
{
    lemma_field_names();
    reveal_with_fuel(field_from, 3);
    match node {
        Node::Object(fields) => {
            lemma_min_info_round_trip(fields@[0].1, info.info);
            lemma_extra_info_round_trip(fields@[1].1, info.extra);
        },
        _ => {},
    }
}

/// Why a stored collection does not read: the model of a [`StoreError`].
pub enum Fault {
    Shape,
    Entry(Seq<char>),
}

/// Why a stored collection does not read.
#[derive(Debug, PartialEq, Eq)]
pub enum StoreError {
    /// The node does not hold the collection's entries under the
    /// collection's name.
    Shape,
    /// The entry under this key does not have the fields of an entry.
    Entry(String),
}

impl View for StoreError {
    type V = Fault;

    open spec fn view(&self) -> Fault {
        match self {
            StoreError::Shape => Fault::Shape,
            StoreError::Entry(key) => Fault::Entry(key@),
        }
    }
}

/// The entries of a stored collection: the fields of the node's field `top`.
pub open spec fn collection_fields(node: Node, top: Seq<char>) -> Option<Seq<(String, Node)>> {
    match node {
        Node::Object(fields) => fields_of(field_of(fields@, top)),
        _ => None,
    }
}

/// Finds the entries of a stored collection.
pub fn collection<'a>(node: &'a Node, top: &str) -> (r: Option<&'a Vec<(String, Node)>>)
    ensures
        match r {
            Some(fields) => collection_fields(*node, top@) == Some(fields@),
            None => collection_fields(*node, top@) is None,
        },
{
    match node {
        Node::Object(fields) => match field(fields, top) {
            Some(Node::Object(entries)) => Some(entries),
            _ => None,
        },
        _ => None,
    }
}

/// What the fields tell of followed series, taken in order: each field's name is a
/// key and its node a followed series; of two fields with one name the later one
/// counts. The first field that holds no followed series is the fault.
pub open spec fn series_of(fields: Seq<(String, Node)>) -> Result<
    Seq<(Seq<char>, InfoView)>,
    Fault,
>
    decreases fields.len(),
{
    if fields.len() == 0 {
        Ok(Seq::empty())
    } else {
        match series_of(fields.drop_last()) {
            Err(fault) => Err(fault),
            Ok(found) => match info_of(Some(fields.last().1)) {
                Some(v) => Ok(assoc_put(found, fields.last().0@, v)),
                None => Err(Fault::Entry(fields.last().0@)),
            },
        }
    }
}

/// What a stored collection of followed series reads as: the node's field
/// `following` holds the entries.
pub open spec fn follows_of(node: Node) -> Result<Seq<(Seq<char>, InfoView)>, Fault> {
    match collection_fields(node, "following"@) {
        Some(fields) => series_of(fields),
        None => Err(Fault::Shape),
    }
}

/// The fields are the stored form of the entries: one field for each entry,
/// in order, under the entry's key.
pub open spec fn is_series_fields(
    fields: Seq<(String, Node)>,
    entries: Seq<(Seq<char>, InfoView)>,
) -> bool {
    &&& fields.len() == entries.len()
    &&& forall|i: int|
        0 <= i < fields.len() ==> (#[trigger] fields[i]).0@ == entries[i].0 && is_info_node(
            fields[i].1,
            entries[i].1,
        )
}

/// The node is the stored form of the collection: its one field `following`
/// holds the stored form of the entries.
pub open spec fn is_follows_node(node: Node, entries: Seq<(Seq<char>, InfoView)>) -> bool {
    match node {
        Node::Object(top) => top@.len() == 1 && top@[0].0@ == "following"@ && match top@[0].1 {
            Node::Object(fields) => is_series_fields(fields@, entries),
            _ => false,
        },
        _ => false,
    }
}

/// A fault among the first fields is the fault of all of them.
proof fn lemma_series_fault_stays(fields: Seq<(String, Node)>, i: int)
    requires
        0 <= i <= fields.len(),
        series_of(fields.take(i)) is Err,
    ensures
        series_of(fields) == series_of(fields.take(i)),
    decreases fields.len() - i,
{
    if i < fields.len() {
        assert(fields.take(i + 1).drop_last() =~= fields.take(i));
        lemma_series_fault_stays(fields, i + 1);
    } else {
        assert(fields.take(i) =~= fields);
    }
}

/// The stored form of the first entries reads as those entries.
proof fn lemma_series_prefix(fields: Seq<(String, Node)>, table: Table<AniInfo>, i: int)
    requires
        table.wf(),
        is_series_fields(fields, table.model()),
        0 <= i <= fields.len(),
    ensures
        series_of(fields.take(i)) == Ok::<Seq<(Seq<char>, InfoView)>, Fault>(
            table.model().take(i),
        ),
    decreases i,
{
    let model = table.model();
    if i == 0 {
        assert(model.take(0) =~= Seq::<(Seq<char>, InfoView)>::empty());
    } else {
        lemma_series_prefix(fields, table, i - 1);
        let seen = model.take(i - 1);
        assert(fields.take(i).drop_last() =~= fields.take(i - 1));
        lemma_info_round_trip(fields[i - 1].1, table.entries@[i - 1].1);
        assert(!assoc_has(seen, model[i - 1].0));
        assert(seen.push(model[i - 1]) =~= model.take(i));
    }
}

/// Reading what was written gives the collection back: the stored form of a
/// collection of followed series reads as that collection, entry for entry and
/// field for field.
pub proof fn lemma_follows_round_trip(node: Node, table: Table<AniInfo>)
    requires
        table.wf(),
        is_follows_node(node, table.model()),
    ensures
        follows_of(node) == Ok::<Seq<(Seq<char>, InfoView)>, Fault>(table.model()),
{
    reveal_with_fuel(field_from, 2);
    match node {
        Node::Object(top) => {
            match top@[0].1 {
                Node::Object(fields) => {
                    lemma_series_prefix(fields@, table, fields@.len() as int);
                    assert(fields@.take(fields@.len() as int) =~= fields@);
                    assert(table.model().take(fields@.len() as int) =~= table.model());
                },
                _ => {},
            }
        },
        _ => {},
    }
}

/// Reads a stored collection of followed series. A node of another shape is
/// reported as such; an entry that holds no followed series is reported with its key,
/// the first such in order.
pub fn read_follows(node: &Node) -> (r: Result<Follows, StoreError>)
    ensures
        match r {
            Ok(found) => found.wf() && follows_of(*node) == Ok::<
                Seq<(Seq<char>, InfoView)>,
                Fault,
            >(found.following.model()),
            Err(fault) => follows_of(*node) == Err::<Seq<(Seq<char>, InfoView)>, Fault>(fault@),
        },
{
    let fields = match collection(node, "following") {
        Some(fields) => fields,
        None => {
            return Err(StoreError::Shape);
        },
    };
    let mut found = Follows::new();
    let mut i: usize = 0;
    proof {
        assert(found.following.model() =~= Seq::<(Seq<char>, InfoView)>::empty());
    }
    while i < fields.len()
        invariant
            i <= fields.len(),
            found.wf(),
            collection_fields(*node, "following"@) == Some(fields@),
            series_of(fields@.take(i as int)) == Ok::<Seq<(Seq<char>, InfoView)>, Fault>(
                found.following.model(),
            ),
        decreases fields.len() - i,
    {
        proof {
            assert(fields@.take(i + 1).drop_last() =~= fields@.take(i as int));
        }
        match read_info(Some(&fields[i].1)) {
            Some(v) => {
                found.following.insert(fields[i].0.clone(), v);
            },
            None => {
                proof {
                    lemma_series_fault_stays(fields@, i + 1);
                }
                return Err(StoreError::Entry(fields[i].0.clone()));
            },
        }
        i += 1;
    }
    assert(fields@.take(i as int) =~= fields@);
    Ok(found)
}

/// Writes a collection of followed series in its stored form.
pub fn write_follows(collection: &Follows) -> (node: Node)
    ensures
        is_follows_node(node, collection.following.model()),
{
    let ghost model = collection.following.model();
    let mut fields: Vec<(String, Node)> = Vec::new();
    let mut i: usize = 0;
    while i < collection.following.entries.len()
        invariant
            i <= collection.following.entries.len(),
            model == collection.following.model(),
            is_series_fields(fields@, model.take(i as int)),
        decreases collection.following.entries.len() - i,
    {
        let key = collection.following.entries[i].0.clone();
        let value = write_info(&collection.following.entries[i].1);
        fields.push((key, value));
        i += 1;
    }
    let mut top: Vec<(String, Node)> = Vec::new();
    top.push((String::from_str("following"), Node::Object(fields)));
    Node::Object(top)
}

/// What the fields tell of last episodes, taken in order: each field's name is a
/// key and its node a last episode; of two fields with one name the later one
/// counts. The first field that holds no last episode is the fault.
pub open spec fn episodes_of(fields: Seq<(String, Node)>) -> Result<
    Seq<(Seq<char>, MinInfoView)>,
    Fault,
>
    decreases fields.len(),
{
    if fields.len() == 0 {
        Ok(Seq::empty())
    } else {
        match episodes_of(fields.drop_last()) {
            Err(fault) => Err(fault),
            Ok(found) => match min_info_of(Some(fields.last().1)) {
                Some(v) => Ok(assoc_put(found, fields.last().0@, v)),
                None => Err(Fault::Entry(fields.last().0@)),
            },
        }
    }
}

/// What a stored collection of last episodes reads as: the node's field
/// `updates` holds the entries.
pub open spec fn updates_of(node: Node) -> Result<Seq<(Seq<char>, MinInfoView)>, Fault> {
    match collection_fields(node, "updates"@) {
        Some(fields) => episodes_of(fields),
        None => Err(Fault::Shape),
    }
}

/// The fields are the stored form of the entries: one field for each entry,
/// in order, under the entry's key.
pub open spec fn is_episode_fields(
    fields: Seq<(String, Node)>,
    entries: Seq<(Seq<char>, MinInfoView)>,
) -> bool {
    &&& fields.len() == entries.len()
    &&& forall|i: int|
        0 <= i < fields.len() ==> (#[trigger] fields[i]).0@ == entries[i].0 && is_min_info_node(
            fields[i].1,
            entries[i].1,
        )
}

/// The node is the stored form of the collection: its one field `updates`
/// holds the stored form of the entries.
pub open spec fn is_updates_node(node: Node, entries: Seq<(Seq<char>, MinInfoView)>) -> bool {
    match node {
        Node::Object(top) => top@.len() == 1 && top@[0].0@ == "updates"@ && match top@[0].1 {
            Node::Object(fields) => is_episode_fields(fields@, entries),
            _ => false,
        },
        _ => false,
    }
}

/// A fault among the first fields is the fault of all of them.
proof fn lemma_episodes_fault_stays(fields: Seq<(String, Node)>, i: int)
    requires
        0 <= i <= fields.len(),
        episodes_of(fields.take(i)) is Err,
    ensures
        episodes_of(fields) == episodes_of(fields.take(i)),
    decreases fields.len() - i,
{
    if i < fields.len() {
        assert(fields.take(i + 1).drop_last() =~= fields.take(i));
        lemma_episodes_fault_stays(fields, i + 1);
    } else {
        assert(fields.take(i) =~= fields);
    }
}

/// The stored form of the first entries reads as those entries.
proof fn lemma_episodes_prefix(fields: Seq<(String, Node)>, table: Table<AniMinInfo>, i: int)
    requires
        table.wf(),
        is_episode_fields(fields, table.model()),
        0 <= i <= fields.len(),
    ensures
        episodes_of(fields.take(i)) == Ok::<Seq<(Seq<char>, MinInfoView)>, Fault>(
            table.model().take(i),
        ),
    decreases i,
{
    let model = table.model();
    if i == 0 {
        assert(model.take(0) =~= Seq::<(Seq<char>, MinInfoView)>::empty());
    } else {
        lemma_episodes_prefix(fields, table, i - 1);
        let seen = model.take(i - 1);
        assert(fields.take(i).drop_last() =~= fields.take(i - 1));
        lemma_min_info_round_trip(fields[i - 1].1, table.entries@[i - 1].1);
        assert(!assoc_has(seen, model[i - 1].0));
        assert(seen.push(model[i - 1]) =~= model.take(i));
    }
}

/// Reading what was written gives the collection back: the stored form of a
/// collection of last episodes reads as that collection, entry for entry and
/// field for field.
pub proof fn lemma_updates_round_trip(node: Node, table: Table<AniMinInfo>)
    requires
        table.wf(),
        is_updates_node(node, table.model()),
    ensures
        updates_of(node) == Ok::<Seq<(Seq<char>, MinInfoView)>, Fault>(table.model()),
{
    reveal_with_fuel(field_from, 2);
    match node {
        Node::Object(top) => {
            match top@[0].1 {
                Node::Object(fields) => {
                    lemma_episodes_prefix(fields@, table, fields@.len() as int);
                    assert(fields@.take(fields@.len() as int) =~= fields@);
                    assert(table.model().take(fields@.len() as int) =~= table.model());
                },
                _ => {},
            }
        },
        _ => {},
    }
}

/// Reads a stored collection of last episodes. A node of another shape is
/// reported as such; an entry that holds no last episode is reported with its key,
/// the first such in order.
pub fn read_updates(node: &Node) -> (r: Result<Updates, StoreError>)
    ensures
        match r {
            Ok(found) => found.wf() && updates_of(*node) == Ok::<
                Seq<(Seq<char>, MinInfoView)>,
                Fault,
            >(found.updates.model()),
            Err(fault) => updates_of(*node) == Err::<Seq<(Seq<char>, MinInfoView)>, Fault>(fault@),
        },
{
    let fields = match collection(node, "updates") {
        Some(fields) => fields,
        None => {
            return Err(StoreError::Shape);
        },
    };
    let mut found = Updates::new();
    let mut i: usize = 0;
    proof {
        assert(found.updates.model() =~= Seq::<(Seq<char>, MinInfoView)>::empty());
    }
    while i < fields.len()
        invariant
            i <= fields.len(),
            found.wf(),
            collection_fields(*node, "updates"@) == Some(fields@),
            episodes_of(fields@.take(i as int)) == Ok::<Seq<(Seq<char>, MinInfoView)>, Fault>(
                found.updates.model(),
            ),
        decreases fields.len() - i,
    {
        proof {
            assert(fields@.take(i + 1).drop_last() =~= fields@.take(i as int));
        }
        match read_min_info(Some(&fields[i].1)) {
            Some(v) => {
                found.updates.insert(fields[i].0.clone(), v);
            },
            None => {
                proof {
                    lemma_episodes_fault_stays(fields@, i + 1);
                }
                return Err(StoreError::Entry(fields[i].0.clone()));
            },
        }
        i += 1;
    }
    assert(fields@.take(i as int) =~= fields@);
    Ok(found)
}

/// Writes a collection of last episodes in its stored form.
pub fn write_updates(collection: &Updates) -> (node: Node)
    ensures
        is_updates_node(node, collection.updates.model()),
{
    let ghost model = collection.updates.model();
    let mut fields: Vec<(String, Node)> = Vec::new();
    let mut i: usize = 0;
    while i < collection.updates.entries.len()
        invariant
            i <= collection.updates.entries.len(),
            model == collection.updates.model(),
            is_episode_fields(fields@, model.take(i as int)),
        decreases collection.updates.entries.len() - i,
    {
        let key = collection.updates.entries[i].0.clone();
        let value = write_min_info(&collection.updates.entries[i].1);
        fields.push((key, value));
        i += 1;
    }
    let mut top: Vec<(String, Node)> = Vec::new();
    top.push((String::from_str("updates"), Node::Object(fields)));
    Node::Object(top)
}

} // verus!
