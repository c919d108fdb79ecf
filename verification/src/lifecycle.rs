//! The transitions of a followed series: one episode further, and finished.

use crate::anime::{AniInfo, AniMinInfo, Follows, InfoView, MinInfoView};
use crate::table::{assoc_put, assoc_slot, lemma_assoc_at};
use vstd::prelude::*;
use vstd::string::*;

verus! {

/// Why a transition changed nothing.
#[derive(Debug, Clone, Copy, PartialEq, Eq, Structural)]
pub enum TransitionError {
    /// The series is not followed.
    NotTracked,
    /// The series stands among the finished ones already.
    AlreadyFinished,
    /// The episode counter cannot go further.
    EpisodeLimit,
}

/// The same series, one episode further.
pub open spec fn bumped(info: InfoView) -> InfoView {
    InfoView {
        info: MinInfoView { name: info.info.name, last_episode: info.info.last_episode + 1 },
        extra: info.extra,
    }
}

/// What advancing `key` gives, and the followed series afterwards.
pub open spec fn advance_model(following: Map<Seq<char>, InfoView>, key: Seq<char>) -> (
    Result<InfoView, TransitionError>,
    Map<Seq<char>, InfoView>,
) {
    if !following.contains_key(key) {
        (Err(TransitionError::NotTracked), following)
    } else if following[key].info.last_episode >= i16::MAX {
        (Err(TransitionError::EpisodeLimit), following)
    } else {
        (Ok(bumped(following[key])), following.insert(key, bumped(following[key])))
    }
}

/// What finishing `key` gives, and the followed and the finished series
/// afterwards.
pub open spec fn finish_model(
    following: Map<Seq<char>, InfoView>,
    finished: Map<Seq<char>, InfoView>,
    key: Seq<char>,
) -> (Result<InfoView, TransitionError>, Map<Seq<char>, InfoView>, Map<Seq<char>, InfoView>) {
    if finished.contains_key(key) {
        (Err(TransitionError::AlreadyFinished), following, finished)
    } else if !following.contains_key(key) {
        (Err(TransitionError::NotTracked), following, finished)
    } else {
        (Ok(following[key]), following.remove(key), finished.insert(key, following[key]))
    }
}

/// The model of what a transition hands back.
pub open spec fn outcome_view(r: Result<AniInfo, TransitionError>) -> Result<
    InfoView,
    TransitionError,
> {
    match r {
        Ok(info) => Ok(info@),
        Err(e) => Err(e),
    }
}

/// No series is both followed and finished.
pub open spec fn disjoint(
    following: Map<Seq<char>, InfoView>,
    finished: Map<Seq<char>, InfoView>,
) -> bool {
    forall|k: Seq<char>| !(#[trigger] following.contains_key(k) && finished.contains_key(k))
}

/// After a series was finished it is no longer followed and stands among the
/// finished ones as it was followed; finishing it once more fails as already
/// finished and changes neither collection.
pub proof fn lemma_finish_once(
    following: Map<Seq<char>, InfoView>,
    finished: Map<Seq<char>, InfoView>,
    key: Seq<char>,
)
    requires
        finish_model(following, finished, key).0 is Ok,
    ensures
        ({
            let (_, following1, finished1) = finish_model(following, finished, key);
            &&& !following1.contains_key(key)
            &&& finished1.contains_key(key)
            &&& finished1[key] == following[key]
            &&& finish_model(following1, finished1, key) == (
                Err::<InfoView, TransitionError>(TransitionError::AlreadyFinished),
                following1,
                finished1,
            )
        }),
{
}

/// Finishing a series keeps the followed and the finished series apart.
pub proof fn lemma_finish_keeps_disjoint(
    following: Map<Seq<char>, InfoView>,
    finished: Map<Seq<char>, InfoView>,
    key: Seq<char>,
)
    requires
        disjoint(following, finished),
    ensures
        disjoint(
            finish_model(following, finished, key).1,
            finish_model(following, finished, key).2,
        ),
{
    let (_, following1, finished1) = finish_model(following, finished, key);
}

/// A transition that fails changes nothing.
pub proof fn lemma_failure_changes_nothing(
    following: Map<Seq<char>, InfoView>,
    finished: Map<Seq<char>, InfoView>,
    key: Seq<char>,
)
    ensures
        advance_model(following, key).0 is Err ==> advance_model(following, key).1 == following,
        finish_model(following, finished, key).0 is Err ==> finish_model(
            following,
            finished,
            key,
        ).1 == following && finish_model(following, finished, key).2 == finished,
{
}

/// Moves the series under `key` one episode further and hands back how it
/// stands then. A series that is not followed, or whose counter is at its
/// limit, is reported, and nothing changes.
pub fn advance(following: &mut Follows, key: &str) -> (r: Result<AniInfo, TransitionError>)
    requires
        old(following).wf(),
    ensures
        final(following).wf(),
        outcome_view(r) == advance_model(old(following)@, key@).0,
        final(following)@ == advance_model(old(following)@, key@).1,
        r is Ok ==> final(following).following.model() == assoc_put(
            old(following).following.model(),
            key@,
            bumped(old(following)@[key@]),
        ),
        r is Err ==> final(following).following.model() == old(following).following.model(),
{
    let next = match following.following.get(key) {
        None => {
            return Err(TransitionError::NotTracked);
        },
        Some(current) => {
            if current.info.last_episode == i16::MAX {
                return Err(TransitionError::EpisodeLimit);
            }
            AniInfo {
                info: AniMinInfo {
                    name: current.info.name.clone(),
                    last_episode: current.info.last_episode + 1,
                },
                extra: current.extra.clone(),
            }
        },
    };
    let shown = next.clone();
    following.following.insert(String::from_str(key), next);
    Ok(shown)
}

/// Retires the series under `key`: it goes to the finished series as it
/// stands and leaves the followed ones. A series that is finished already, or
/// that is not followed, is reported, and nothing changes.
pub fn finish(following: &mut Follows, finished: &mut Follows, key: &str) -> (r: Result<
    AniInfo,
    TransitionError,
>)
    requires
        old(following).wf(),
        old(finished).wf(),
    ensures
        final(following).wf(),
        final(finished).wf(),
        outcome_view(r) == finish_model(old(following)@, old(finished)@, key@).0,
        final(following)@ == finish_model(old(following)@, old(finished)@, key@).1,
        final(finished)@ == finish_model(old(following)@, old(finished)@, key@).2,
        r is Ok ==> final(following).following.model() == old(following).following.model().remove(
            assoc_slot(old(following).following.model(), key@),
        ) && final(finished).following.model() == old(finished).following.model().push(
            (key@, old(following)@[key@]),
        ),
        r is Err ==> final(following).following.model() == old(following).following.model()
            && final(finished).following.model() == old(finished).following.model(),
{
    if finished.following.contains_key(key) {
        return Err(TransitionError::AlreadyFinished);
    }
    match following.following.remove(key) {
        None => Err(TransitionError::NotTracked),
        Some(info) => {
            let shown = info.clone();
            finished.following.insert(String::from_str(key), info);
            Ok(shown)
        },
    }
}

/// A key that stands among the followed and among the finished series, where
/// there is one: the first such in the order of the followed series. The two
/// collections are apart exactly where there is none.
pub fn shared_key(following: &Follows, finished: &Follows) -> (r: Option<String>)
    requires
        following.wf(),
    ensures
        match r {
            Some(k) => {
                &&& following@.contains_key(k@)
                &&& finished@.contains_key(k@)
                &&& forall|j: int|
                    0 <= j < assoc_slot(following.following.model(), k@)
                        ==> !finished@.contains_key(
                        (#[trigger] following.following.model()[j]).0,
                    )
            },
            None => disjoint(following@, finished@),
        },
{
    let mut i: usize = 0;
    while i < following.following.entries.len()
        invariant
            i <= following.following.entries.len(),
            following.wf(),
            forall|j: int|
                0 <= j < i ==> !finished@.contains_key(
                    (#[trigger] following.following.model()[j]).0,
                ),
        decreases following.following.entries.len() - i,
    {
        let key = &following.following.entries[i].0;
        proof {
            lemma_assoc_at(following.following.model(), i as int);
        }
        if finished.following.contains_key(key.as_str()) {
            return Some(key.clone());
        }
        i += 1;
    }
    None
}

} // verus!
