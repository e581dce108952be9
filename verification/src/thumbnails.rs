//! Fetching many thumbnails at once. Every file that was asked for is reported
//! once, whatever the server says about it.

use vstd::multiset::Multiset;
use vstd::prelude::*;
use vstd::string::StringExecFns;

use crate::batching::{cut, is_batching, MAX_THUMBNAIL_IDS_PER_REQUEST};
use crate::dtos::{ThumbnailBlock, ThumbnailBlockError, ThumbnailBlockListResponse};
use crate::error::{invalid, ProtonError};
use crate::ids::{uid_text, NodeUid, VolumeId};
use crate::node::FileThumbnail;
use crate::text::{joined, owned, same_text, texts};

verus! {

/// A thumbnail that is still to be fetched: the block it is in, the file it belongs
/// to and the key that decrypts it.
#[derive(Debug, PartialEq, Eq)]
pub struct ThumbnailTarget {
    pub thumbnail_id: String,
    pub uid: NodeUid,
    pub content_key: String,
}

/// Whether some target has the block.
pub open spec fn has_target(targets: Seq<ThumbnailTarget>, id: Seq<char>) -> bool {
    exists|i: int| 0 <= i < targets.len() && (#[trigger] targets[i]).thumbnail_id@ == id
}

/// Where the target with the block stands.
pub open spec fn target_slot(targets: Seq<ThumbnailTarget>, id: Seq<char>) -> int {
    choose|i: int| 0 <= i < targets.len() && (#[trigger] targets[i]).thumbnail_id@ == id
}

/// No two targets have the same block.
pub open spec fn distinct_targets(targets: Seq<ThumbnailTarget>) -> bool {
    forall|i: int, j: int|
        0 <= i < j < targets.len() ==> (#[trigger] targets[i]).thumbnail_id@ != (
        #[trigger] targets[j]).thumbnail_id@
}

/// The targets that are left once those with the blocks are taken out.
pub open spec fn left(targets: Seq<ThumbnailTarget>, ids: Seq<Seq<char>>) -> Seq<ThumbnailTarget>
    decreases ids.len(),
{
    if ids.len() == 0 {
        targets
    } else {
        let before = left(targets, ids.drop_last());
        if has_target(before, ids.last()) {
            before.remove(target_slot(before, ids.last()))
        } else {
            before
        }
    }
}

/// The targets that are taken out, each with the place of its block among the
/// blocks.
pub open spec fn taken(targets: Seq<ThumbnailTarget>, ids: Seq<Seq<char>>) -> Seq<
    (int, ThumbnailTarget),
>
    decreases ids.len(),
{
    if ids.len() == 0 {
        Seq::empty()
    } else {
        let before = left(targets, ids.drop_last());
        if has_target(before, ids.last()) {
            taken(targets, ids.drop_last()).push(
                (ids.len() - 1, before[target_slot(before, ids.last())]),
            )
        } else {
            taken(targets, ids.drop_last())
        }
    }
}

/// The files of targets, as often as they occur.
pub open spec fn target_uids(targets: Seq<ThumbnailTarget>) -> Multiset<(Seq<char>, Seq<char>)>
    decreases targets.len(),
{
    if targets.len() == 0 {
        Multiset::empty()
    } else {
        target_uids(targets.drop_last()).insert(targets.last().uid@)
    }
}

/// The files of targets that were taken out.
pub open spec fn taken_uids(entries: Seq<(int, ThumbnailTarget)>) -> Multiset<
    (Seq<char>, Seq<char>),
>
    decreases entries.len(),
{
    if entries.len() == 0 {
        Multiset::empty()
    } else {
        taken_uids(entries.drop_last()).insert(entries.last().1.uid@)
    }
}

proof fn lemma_remove_target(targets: Seq<ThumbnailTarget>, k: int)
    requires
        0 <= k < targets.len(),
    ensures
        target_uids(targets) == target_uids(targets.remove(k)).insert(targets[k].uid@),
    decreases targets.len(),
{
    let fewer = targets.drop_last();
    if k == targets.len() - 1 {
        assert(targets.remove(k) =~= fewer);
    } else {
        lemma_remove_target(fewer, k);
        assert(targets.remove(k).drop_last() =~= fewer.remove(k));
        assert(targets.remove(k).last() == targets.last());
        assert(target_uids(targets) =~= target_uids(targets.remove(k)).insert(targets[k].uid@));
    }
}

proof fn lemma_removal_keeps_distinct(targets: Seq<ThumbnailTarget>, k: int)
    requires
        distinct_targets(targets),
        0 <= k < targets.len(),
    ensures
        distinct_targets(targets.remove(k)),
        !has_target(targets.remove(k), targets[k].thumbnail_id@),
        forall|id: Seq<char>|
            id != targets[k].thumbnail_id@ ==> #[trigger] has_target(targets.remove(k), id)
                == has_target(targets, id),
{
    let after = targets.remove(k);
    assert forall|i: int, j: int| 0 <= i < j < after.len() implies (#[trigger] after[i]).thumbnail_id@
        != (#[trigger] after[j]).thumbnail_id@ by {
        let p = if i < k {
            i
        } else {
            i + 1
        };
        let q = if j < k {
            j
        } else {
            j + 1
        };
        assert(after[i] == targets[p] && after[j] == targets[q]);
    }
    assert forall|i: int| 0 <= i < after.len() implies (#[trigger] after[i]).thumbnail_id@
        != targets[k].thumbnail_id@ by {
        if i < k {
            assert(after[i] == targets[i]);
        } else {
            assert(after[i] == targets[i + 1]);
        }
    }
    assert forall|id: Seq<char>| id != targets[k].thumbnail_id@ implies #[trigger] has_target(
        after,
        id,
    ) == has_target(targets, id) by {
        if has_target(targets, id) {
            let i = target_slot(targets, id);
            if i < k {
                assert(after[i] == targets[i]);
            } else {
                assert(after[i - 1] == targets[i]);
            }
        }
        if has_target(after, id) {
            let i = target_slot(after, id);
            if i < k {
                assert(targets[i] == after[i]);
            } else {
                assert(targets[i + 1] == after[i]);
            }
        }
    }
}

/// Taking targets out loses none and takes none twice: the files of those that were
/// taken and of those that are left are the files there were. None of the blocks
/// that were gone through has a target any more, and the other blocks keep theirs.
pub proof fn law_no_thumbnail_is_lost(targets: Seq<ThumbnailTarget>, ids: Seq<Seq<char>>)
    requires
        distinct_targets(targets),
    ensures
        distinct_targets(left(targets, ids)),
        taken_uids(taken(targets, ids)).add(target_uids(left(targets, ids))) == target_uids(targets),
        taken(targets, ids).len() + left(targets, ids).len() == targets.len(),
        forall|i: int| 0 <= i < ids.len() ==> !has_target(left(targets, ids), #[trigger] ids[i]),
        forall|id: Seq<char>|
            !ids.contains(id) ==> #[trigger] has_target(left(targets, ids), id) == has_target(
                targets,
                id,
            ),
    decreases ids.len(),
{
    if ids.len() == 0 {
        assert(taken_uids(taken(targets, ids)).add(target_uids(targets)) =~= target_uids(targets));
    } else {
        let fewer = ids.drop_last();
        let before = left(targets, fewer);
        let after = left(targets, ids);
        let id = ids.last();
        law_no_thumbnail_is_lost(targets, fewer);
        assert forall|other: Seq<char>| !ids.contains(other) implies !fewer.contains(other) by {
            if fewer.contains(other) {
                let i = choose|i: int| 0 <= i < fewer.len() && fewer[i] == other;
                assert(ids[i] == other);
            }
        }
        assert(ids[ids.len() - 1] == id);
        if has_target(before, id) {
            let k = target_slot(before, id);
            lemma_remove_target(before, k);
            lemma_removal_keeps_distinct(before, k);
            let earlier = taken(targets, fewer);
            let entries = taken(targets, ids);
            assert(entries.drop_last() =~= earlier);
            assert(taken_uids(entries).add(target_uids(after)) =~= taken_uids(earlier).add(
                target_uids(before),
            ));
            assert forall|i: int| 0 <= i < ids.len() implies !has_target(after, #[trigger] ids[i]) by {
                if i < fewer.len() {
                    assert(fewer[i] == ids[i]);
                    assert(!has_target(before, fewer[i]));
                }
            }
        } else {
            assert forall|i: int| 0 <= i < ids.len() implies !has_target(after, #[trigger] ids[i]) by {
                if i < fewer.len() {
                    assert(fewer[i] == ids[i]);
                }
            }
        }
    }
}

/// Once a batch is worked through, each of its files was fetched or refused exactly
/// once: those that the server gave, those that it refused, those that it passed
/// over and those that are left are together the files there were, and none of the
/// batch is left.
pub proof fn law_batch_is_reported(
    targets: Seq<ThumbnailTarget>,
    given: Seq<Seq<char>>,
    denied: Seq<Seq<char>>,
    chunk: Seq<Seq<char>>,
)
    requires
        distinct_targets(targets),
    ensures
        ({
            let after_given = left(targets, given);
            let after_denied = left(after_given, denied);
            let rest = left(after_denied, chunk);
            &&& taken_uids(taken(targets, given)).add(
                taken_uids(taken(after_given, denied)),
            ).add(taken_uids(taken(after_denied, chunk))).add(target_uids(rest)) == target_uids(
                targets,
            )
            &&& forall|i: int| 0 <= i < chunk.len() ==> !has_target(rest, #[trigger] chunk[i])
        }),
{
    let after_given = left(targets, given);
    let after_denied = left(after_given, denied);
    let rest = left(after_denied, chunk);
    law_no_thumbnail_is_lost(targets, given);
    law_no_thumbnail_is_lost(after_given, denied);
    law_no_thumbnail_is_lost(after_denied, chunk);
    assert(taken_uids(taken(targets, given)).add(taken_uids(taken(after_given, denied))).add(
        taken_uids(taken(after_denied, chunk)),
    ).add(target_uids(rest)) =~= taken_uids(taken(targets, given)).add(
        taken_uids(taken(after_given, denied)).add(
            taken_uids(taken(after_denied, chunk)).add(target_uids(rest)),
        ),
    ));
}

/// Thumbnails being fetched: the targets that are left, and what is reported of the
/// other files.
#[derive(Debug, PartialEq, Eq)]
pub struct ThumbnailRun {
    pub targets: Vec<ThumbnailTarget>,
    pub results: Vec<FileThumbnail>,
}

/// Whether the reports are refusals of the targets that were taken out, with a
/// message for each place.
pub open spec fn are_refusals(
    reports: Seq<FileThumbnail>,
    entries: Seq<(int, ThumbnailTarget)>,
    message: spec_fn(int) -> Seq<char>,
) -> bool {
    &&& reports.len() == entries.len()
    &&& forall|j: int|
        0 <= j < reports.len() ==> (#[trigger] reports[j]).file_uid == entries[j].1.uid
            && reports[j].result is Err && invalid(
            reports[j].result->Err_0,
            message(entries[j].0),
        )
}

/// Whether `fetch` is the block at the place of a target that was taken out.
pub open spec fn is_fetch(
    fetch: (ThumbnailTarget, ThumbnailBlock),
    entry: (int, ThumbnailTarget),
    blocks: Seq<ThumbnailBlock>,
) -> bool {
    &&& fetch.0 == entry.1
    &&& 0 <= entry.0 < blocks.len()
    &&& fetch.1 == blocks[entry.0]
}

/// Whether `longer` is `shorter` with something appended.
pub open spec fn extends(longer: Seq<FileThumbnail>, shorter: Seq<FileThumbnail>) -> bool {
    &&& shorter.len() <= longer.len()
    &&& longer.take(shorter.len() as int) == shorter
}

/// The ids of the blocks that an answer gives.
pub open spec fn block_ids(blocks: Seq<ThumbnailBlock>) -> Seq<Seq<char>> {
    Seq::new(blocks.len(), |i: int| blocks[i].thumbnail_id@)
}

/// The ids of the blocks that an answer refuses.
pub open spec fn error_ids(errors: Seq<ThumbnailBlockError>) -> Seq<Seq<char>> {
    Seq::new(errors.len(), |i: int| errors[i].thumbnail_id@)
}

/// What is said of a file that has no such thumbnail.
pub open spec fn no_thumbnail(uid: (Seq<char>, Seq<char>)) -> Seq<char> {
    "node "@ + uid_text(uid) + " has no thumbnail of the requested type"@
}

fn find_target(targets: &Vec<ThumbnailTarget>, id: &str) -> (r: Option<usize>)
    requires
        distinct_targets(targets@),
    ensures
        match r {
            Some(i) => has_target(targets@, id@) && i < targets@.len() && i == target_slot(
                targets@,
                id@,
            ),
            None => !has_target(targets@, id@),
        },
{
    let mut i: usize = 0;
    while i < targets.len()
        invariant
            i <= targets@.len(),
            distinct_targets(targets@),
            forall|j: int| 0 <= j < i ==> (#[trigger] targets@[j]).thumbnail_id@ != id@,
        decreases targets@.len() - i,
    {
        if same_text(targets[i].thumbnail_id.as_str(), id) {
            proof {
                assert(targets@[i as int].thumbnail_id@ == id@);
                let k = target_slot(targets@, id@);
                if i < k {
                    assert(targets@[i as int].thumbnail_id@ != targets@[k].thumbnail_id@);
                } else if k < i {
                    assert(targets@[k].thumbnail_id@ != targets@[i as int].thumbnail_id@);
                }
            }
            return Some(i);
        }
        i += 1;
    }
    None
}

impl ThumbnailRun {
    pub open spec fn well_formed(self) -> bool {
        distinct_targets(self.targets@)
    }

    pub fn new() -> (run: ThumbnailRun)
        ensures
            run.well_formed(),
            run.targets@.len() == 0,
            run.results@.len() == 0,
    {
        ThumbnailRun { targets: Vec::new(), results: Vec::new() }
    }

    /// Takes in what came of looking for a file's thumbnail: the content key, and the
    /// block of the thumbnail if the file has one. A file without one, and one that
    /// cannot be read, is reported at once. Of two files with the same block the
    /// later one counts.
    pub fn resolved(
        &mut self,
        uid: NodeUid,
        target: Result<(String, Option<String>), ProtonError>,
    )
        requires
            old(self).well_formed(),
        ensures
            final(self).well_formed(),
            match target {
                Ok((key, Some(id))) => {
                    let entry = ThumbnailTarget { thumbnail_id: id, uid, content_key: key };
                    &&& final(self).results == old(self).results
                    &&& final(self).targets@ == (if has_target(old(self).targets@, id@) {
                        old(self).targets@.update(target_slot(old(self).targets@, id@), entry)
                    } else {
                        old(self).targets@.push(entry)
                    })
                },
                Ok((_, None)) => {
                    &&& final(self).targets == old(self).targets
                    &&& final(self).results@.drop_last() == old(self).results@
                    &&& final(self).results@.len() > 0
                    &&& final(self).results@.last().file_uid == uid
                    &&& final(self).results@.last().result is Err
                    &&& invalid(final(self).results@.last().result->Err_0, no_thumbnail(uid@))
                },
                Err(e) => {
                    &&& final(self).targets == old(self).targets
                    &&& final(self).results@ == old(self).results@.push(
                        FileThumbnail { file_uid: uid, result: Err(e) },
                    )
                },
            },
    {
        match target {
            Ok((content_key, Some(thumbnail_id))) => {
                let ghost before = self.targets@;
                match find_target(&self.targets, thumbnail_id.as_str()) {
                    Some(k) => {
                        let entry = ThumbnailTarget { thumbnail_id, uid, content_key };
                        self.targets.set(k, entry);
                        proof {
                            assert forall|i: int, j: int|
                                0 <= i < j < self.targets@.len() implies (
                            #[trigger] self.targets@[i]).thumbnail_id@ != (
                            #[trigger] self.targets@[j]).thumbnail_id@ by {
                                assert(before[i].thumbnail_id@ != before[j].thumbnail_id@);
                            }
                        }
                    },
                    None => {
                        let entry = ThumbnailTarget { thumbnail_id, uid, content_key };
                        self.targets.push(entry);
                        proof {
                            assert forall|i: int, j: int|
                                0 <= i < j < self.targets@.len() implies (
                            #[trigger] self.targets@[i]).thumbnail_id@ != (
                            #[trigger] self.targets@[j]).thumbnail_id@ by {
                                assert(self.targets@[i] == before[i]);
                                if j < before.len() {
                                    assert(self.targets@[j] == before[j]);
                                }
                            }
                        }
                    },
                }
            },
            Ok((_, None)) => {
                let ghost before = self.results@;
                let mut message: String = owned("node ");
                message.append(uid.to_text().as_str());
                message.append(" has no thumbnail of the requested type");
                self.results.push(FileThumbnail::err(uid, ProtonError::InvalidOperation(message)));
                assert(self.results@.drop_last() =~= before);
            },
            Err(e) => {
                self.results.push(FileThumbnail::err(uid, e));
            },
        }
    }

    /// The blocks to ask for, in batches of at most [`MAX_THUMBNAIL_IDS_PER_REQUEST`].
    pub fn chunks(&self) -> (r: Vec<Vec<String>>)
        ensures
            exists|ids: Seq<String>| #[trigger]
                is_batching(r@, ids, MAX_THUMBNAIL_IDS_PER_REQUEST as nat) && ids.len()
                    == self.targets@.len() && forall|i: int|
                    0 <= i < ids.len() ==> #[trigger] ids[i] == self.targets@[i].thumbnail_id,
    {
        let mut ids: Vec<String> = Vec::new();
        let mut i: usize = 0;
        while i < self.targets.len()
            invariant
                i <= self.targets@.len(),
                ids@.len() == i,
                forall|j: int| 0 <= j < i ==> #[trigger] ids@[j] == self.targets@[j].thumbnail_id,
            decreases self.targets@.len() - i,
        {
            ids.push(self.targets[i].thumbnail_id.clone());
            i += 1;
        }
        cut(ids, MAX_THUMBNAIL_IDS_PER_REQUEST)
    }

    /// Takes the targets with the blocks out, in the order of the blocks.
    fn take(&mut self, ids: &Vec<String>) -> (r: Vec<(usize, ThumbnailTarget)>)
        requires
            old(self).well_formed(),
        ensures
            final(self).well_formed(),
            final(self).results == old(self).results,
            final(self).targets@ == left(old(self).targets@, texts(ids@)),
            r@.len() == taken(old(self).targets@, texts(ids@)).len(),
            forall|j: int|
                0 <= j < r@.len() ==> (#[trigger] r@[j]).0 < ids@.len() && r@[j].0 == taken(
                    old(self).targets@,
                    texts(ids@),
                )[j].0 && r@[j].1 == taken(old(self).targets@, texts(ids@))[j].1,
    {
        let ghost start = self.targets@;
        let ghost all = texts(ids@);
        let mut out: Vec<(usize, ThumbnailTarget)> = Vec::new();
        let mut i: usize = 0;
        assert(all.take(0) =~= Seq::<Seq<char>>::empty());
        while i < ids.len()
            invariant
                i <= ids@.len(),
                all == texts(ids@),
                self.well_formed(),
                self.results == old(self).results,
                self.targets@ == left(start, all.take(i as int)),
                out@.len() == taken(start, all.take(i as int)).len(),
                forall|j: int|
                    0 <= j < out@.len() ==> (#[trigger] out@[j]).0 < ids@.len() && out@[j].0
                        == taken(start, all.take(i as int))[j].0 && out@[j].1 == taken(
                        start,
                        all.take(i as int),
                    )[j].1,
            decreases ids@.len() - i,
        {
            proof {
                assert(all.take(i + 1).drop_last() =~= all.take(i as int));
                assert(all.take(i + 1).last() == ids@[i as int]@);
            }
            match find_target(&self.targets, ids[i].as_str()) {
                Some(k) => {
                    proof {
                        lemma_removal_keeps_distinct(self.targets@, k as int);
                    }
                    let target: ThumbnailTarget = self.targets.remove(k);
                    out.push((i, target));
                },
                None => {},
            }
            i += 1;
        }
        assert(all.take(i as int) =~= all);
        out
    }

    /// Reports each of the targets that were taken out as refused.
    fn refuse(&mut self, entries: Vec<(usize, ThumbnailTarget)>, messages: &Vec<String>)
        requires
            forall|j: int| 0 <= j < entries@.len() ==> (#[trigger] entries@[j]).0 < messages@.len(),
        ensures
            final(self).targets == old(self).targets,
            final(self).results@.len() == old(self).results@.len() + entries@.len(),
            final(self).results@.take(old(self).results@.len() as int) == old(self).results@,
            forall|j: int|
                0 <= j < entries@.len() ==> (#[trigger] entries@[j]).1.uid
                    == final(self).results@[old(self).results@.len() + j].file_uid
                    && final(self).results@[old(self).results@.len() + j].result is Err && invalid(
                    final(self).results@[old(self).results@.len() + j].result->Err_0,
                    messages@[entries@[j].0 as int]@,
                ),
    {
        let ghost start = self.results@;
        let ghost all = entries@;
        let mut rest: Vec<(usize, ThumbnailTarget)> = entries;
        let ghost mut done: int = 0;
        assert(self.results@.take(start.len() as int) =~= start);
        while rest.len() > 0
            invariant
                0 <= done <= all.len(),
                rest@ == all.skip(done),
                forall|j: int| 0 <= j < all.len() ==> (#[trigger] all[j]).0 < messages@.len(),
                self.targets == old(self).targets,
                self.results@.len() == start.len() + done,
                self.results@.take(start.len() as int) == start,
                forall|j: int|
                    0 <= j < done ==> (#[trigger] all[j]).1.uid == self.results@[start.len()
                        + j].file_uid && self.results@[start.len() + j].result is Err && invalid(
                        self.results@[start.len() + j].result->Err_0,
                        messages@[all[j].0 as int]@,
                    ),
            decreases rest@.len(),
        {
            let (place, target): (usize, ThumbnailTarget) = rest.remove(0);
            assert((place, target) == all[done]);
            let ghost before = self.results@;
            let error = ProtonError::InvalidOperation(messages[place].clone());
            self.results.push(FileThumbnail::err(target.uid, error));
            proof {
                assert(self.results@.take(start.len() as int) =~= start);
                assert forall|j: int| 0 <= j < done implies (#[trigger] all[j]).1.uid
                    == self.results@[start.len() + j].file_uid && self.results@[start.len()
                    + j].result is Err && invalid(
                    self.results@[start.len() + j].result->Err_0,
                    messages@[all[j].0 as int]@,
                ) by {
                    assert(self.results@[start.len() + j] == before[start.len() + j]);
                }
                done = done + 1;
                assert(rest@ =~= all.skip(done));
            }
        }
    }

    /// The request for a batch failed: every file in it is refused. `told` says how
    /// the failure reads.
    pub fn chunk_failed(&mut self, chunk: &Vec<String>, told: &str)
        requires
            old(self).well_formed(),
        ensures
            final(self).well_formed(),
            final(self).targets@ == left(old(self).targets@, texts(chunk@)),
            extends(final(self).results@, old(self).results@),
            are_refusals(
                final(self).results@.skip(old(self).results@.len() as int),
                taken(old(self).targets@, texts(chunk@)),
                |i: int| "resolve thumbnail blocks: "@ + told@,
            ),
    {
        let entries: Vec<(usize, ThumbnailTarget)> = self.take(chunk);
        let message: String = joined("resolve thumbnail blocks: ", told);
        self.refuse_alike(entries, message, chunk.len());
    }

    /// Refuses each of the targets that were taken out in the same words.
    fn refuse_alike(
        &mut self,
        entries: Vec<(usize, ThumbnailTarget)>,
        message: String,
        places: usize,
    )
        requires
            old(self).well_formed(),
            forall|j: int| 0 <= j < entries@.len() ==> (#[trigger] entries@[j]).0 < places,
        ensures
            final(self).well_formed(),
            final(self).targets == old(self).targets,
            extends(final(self).results@, old(self).results@),
            final(self).results@.len() == old(self).results@.len() + entries@.len(),
            forall|j: int|
                0 <= j < entries@.len() ==> {
                    let report = #[trigger] final(self).results@.skip(
                        old(self).results@.len() as int,
                    )[j];
                    &&& report.file_uid == entries@[j].1.uid
                    &&& report.result is Err
                    &&& invalid(report.result->Err_0, message@)
                },
    {
        let mut messages: Vec<String> = Vec::new();
        let mut i: usize = 0;
        while i < places
            invariant
                i <= places,
                messages@.len() == i,
                forall|j: int| 0 <= j < i ==> (#[trigger] messages@[j])@ == message@,
            decreases places - i,
        {
            messages.push(message.clone());
            i += 1;
        }
        let ghost start = self.results@;
        let ghost all = entries@;
        self.refuse(entries, &messages);
        proof {
            assert forall|j: int| 0 <= j < all.len() implies {
                let report = #[trigger] self.results@.skip(start.len() as int)[j];
                &&& report.file_uid == all[j].1.uid
                &&& report.result is Err
                &&& invalid(report.result->Err_0, message@)
            } by {
                assert(all[j].1.uid == self.results@[start.len() + j].file_uid);
                assert(messages@[all[j].0 as int]@ == message@);
            }
        }
    }

    /// The blocks that an answer gives and that are wanted: each with its target, to
    /// be fetched and decrypted.
    pub fn to_fetch(&mut self, blocks: Vec<ThumbnailBlock>) -> (r: Vec<
        (ThumbnailTarget, ThumbnailBlock),
    >)
        requires
            old(self).well_formed(),
        ensures
            final(self).well_formed(),
            final(self).results == old(self).results,
            final(self).targets@ == left(old(self).targets@, block_ids(blocks@)),
            r@.len() == taken(old(self).targets@, block_ids(blocks@)).len(),
            forall|j: int|
                0 <= j < r@.len() ==> is_fetch(
                    #[trigger] r@[j],
                    taken(old(self).targets@, block_ids(blocks@))[j],
                    blocks@,
                ),
    {
        let ghost start = self.targets@;
        let mut ids: Vec<String> = Vec::new();
        let mut i: usize = 0;
        while i < blocks.len()
            invariant
                i <= blocks@.len(),
                ids@.len() == i,
                forall|j: int| 0 <= j < i ==> #[trigger] ids@[j] == blocks@[j].thumbnail_id,
            decreases blocks@.len() - i,
        {
            ids.push(blocks[i].thumbnail_id.clone());
            i += 1;
        }
        assert(texts(ids@) =~= block_ids(blocks@));
        let entries: Vec<(usize, ThumbnailTarget)> = self.take(&ids);
        let ghost all = entries@;
        let mut rest: Vec<(usize, ThumbnailTarget)> = entries;
        let mut out: Vec<(ThumbnailTarget, ThumbnailBlock)> = Vec::new();
        while rest.len() > 0
            invariant
                out@.len() + rest@.len() == all.len(),
                rest@ == all.skip(out@.len() as int),
                forall|j: int| 0 <= j < all.len() ==> (#[trigger] all[j]).0 < blocks@.len(),
                forall|j: int|
                    0 <= j < out@.len() ==> (#[trigger] out@[j]).0 == all[j].1
                        && out@[j].1.thumbnail_id == blocks@[all[j].0 as int].thumbnail_id
                        && out@[j].1.bare_url == blocks@[all[j].0 as int].bare_url
                        && out@[j].1.token == blocks@[all[j].0 as int].token,
            decreases rest@.len(),
        {
            let (place, target): (usize, ThumbnailTarget) = rest.remove(0);
            assert((place, target) == all[out@.len() as int]);
            let block = ThumbnailBlock {
                thumbnail_id: blocks[place].thumbnail_id.clone(),
                bare_url: blocks[place].bare_url.clone(),
                token: blocks[place].token.clone(),
            };
            out.push((target, block));
            assert(rest@ =~= all.skip(out@.len() as int));
        }
        proof {
            let wanted = taken(start, block_ids(blocks@));
            assert forall|j: int| 0 <= j < out@.len() implies is_fetch(
                #[trigger] out@[j],
                wanted[j],
                blocks@,
            ) by {
                assert(all[j].0 == wanted[j].0 && all[j].1 == wanted[j].1);
            }
        }
        out
    }

    /// Takes in what came of fetching and decrypting a block.
    pub fn fetched(&mut self, uid: NodeUid, thumbnail: Result<Vec<u8>, ProtonError>)
        ensures
            final(self).targets == old(self).targets,
            final(self).results@ == old(self).results@.push(
                FileThumbnail { file_uid: uid, result: thumbnail },
            ),
    {
        match thumbnail {
            Ok(bytes) => self.results.push(FileThumbnail::ok(uid, bytes)),
            Err(e) => self.results.push(FileThumbnail::err(uid, e)),
        }
    }

    /// The blocks that an answer refuses: their files are refused with what the
    /// server says.
    pub fn refused(&mut self, errors: Vec<ThumbnailBlockError>)
        requires
            old(self).well_formed(),
        ensures
            final(self).well_formed(),
            final(self).targets@ == left(old(self).targets@, error_ids(errors@)),
            extends(final(self).results@, old(self).results@),
            are_refusals(
                final(self).results@.skip(old(self).results@.len() as int),
                taken(old(self).targets@, error_ids(errors@)),
                |i: int| errors@[i].error@,
            ),
    {
        let mut ids: Vec<String> = Vec::new();
        let mut messages: Vec<String> = Vec::new();
        let mut i: usize = 0;
        while i < errors.len()
            invariant
                i <= errors@.len(),
                ids@.len() == i,
                messages@.len() == i,
                forall|j: int| 0 <= j < i ==> #[trigger] ids@[j] == errors@[j].thumbnail_id,
                forall|j: int| 0 <= j < i ==> #[trigger] messages@[j] == errors@[j].error,
            decreases errors@.len() - i,
        {
            ids.push(errors[i].thumbnail_id.clone());
            messages.push(errors[i].error.clone());
            i += 1;
        }
        assert(texts(ids@) =~= error_ids(errors@));
        let entries: Vec<(usize, ThumbnailTarget)> = self.take(&ids);
        let ghost start = self.results@;
        let ghost all = entries@;
        self.refuse(entries, &messages);
        proof {
            let reports = self.results@.skip(start.len() as int);
            assert forall|j: int| 0 <= j < reports.len() implies (#[trigger] reports[j]).file_uid
                == all[j].1.uid && reports[j].result is Err && invalid(
                reports[j].result->Err_0,
                errors@[all[j].0 as int].error@,
            ) by {
                assert(all[j].1.uid == self.results@[start.len() + j].file_uid);
                assert(messages@[all[j].0 as int] == errors@[all[j].0 as int].error);
            }
        }
    }

    /// The files of a batch that the answer says nothing about are refused too.
    pub fn finish_chunk(&mut self, chunk: &Vec<String>)
        requires
            old(self).well_formed(),
        ensures
            final(self).well_formed(),
            final(self).targets@ == left(old(self).targets@, texts(chunk@)),
            extends(final(self).results@, old(self).results@),
            are_refusals(
                final(self).results@.skip(old(self).results@.len() as int),
                taken(old(self).targets@, texts(chunk@)),
                |i: int| "thumbnail not found"@,
            ),
    {
        let entries: Vec<(usize, ThumbnailTarget)> = self.take(chunk);
        self.refuse_alike(entries, owned("thumbnail not found"), chunk.len());
    }
}

/// The route that resolves thumbnail blocks.
pub fn thumbnails_path(volume_id: &VolumeId) -> (path: String)
    ensures
        path@ == "volumes/"@ + volume_id@ + "/thumbnails"@,
{
    let mut path: String = owned("volumes/");
    path.append(volume_id.as_str());
    path.append("/thumbnails");
    path
}

/// Whether block `i` of an answer is the first one with the id.
pub open spec fn first_block(blocks: Seq<ThumbnailBlock>, id: Seq<char>, i: int) -> bool {
    &&& 0 <= i < blocks.len()
    &&& blocks[i].thumbnail_id@ == id
    &&& forall|j: int| 0 <= j < i ==> (#[trigger] blocks[j]).thumbnail_id@ != id
}

/// Whether refusal `i` of an answer is the first one with the id.
pub open spec fn first_error(errors: Seq<ThumbnailBlockError>, id: Seq<char>, i: int) -> bool {
    &&& 0 <= i < errors.len()
    &&& errors[i].thumbnail_id@ == id
    &&& forall|j: int| 0 <= j < i ==> (#[trigger] errors[j]).thumbnail_id@ != id
}

/// Why one thumbnail was not resolved: what the server says, if anything.
pub open spec fn is_reason(
    reason: Seq<char>,
    errors: Seq<ThumbnailBlockError>,
    id: Seq<char>,
) -> bool {
    (exists|i: int| #[trigger] first_error(errors, id, i) && reason == errors[i].error@) || (!(
    exists|i: int| #[trigger] first_error(errors, id, i)) && reason
        == "thumbnail block not returned"@)
}

/// The block of one thumbnail, out of the answer to a request for it alone.
pub fn thumbnail_block(id: &str, response: ThumbnailBlockListResponse) -> (r: Result<
    ThumbnailBlock,
    ProtonError,
>)
    ensures
        match r {
            Ok(block) => exists|i: int| #[trigger]
                first_block(response.blocks@, id@, i) && block == response.blocks@[i],
            Err(e) => (forall|i: int| !#[trigger] first_block(response.blocks@, id@, i)) && exists|
                reason: Seq<char>,
            | #[trigger]
                is_reason(reason, response.errors@, id@) && invalid(
                    e,
                    "resolve thumbnail block: "@ + reason,
                ),
        },
{
    let mut blocks: Vec<ThumbnailBlock> = response.blocks;
    let errors: Vec<ThumbnailBlockError> = response.errors;
    let mut i: usize = 0;
    while i < blocks.len()
        invariant
            i <= blocks@.len(),
            blocks == response.blocks,
            forall|j: int| 0 <= j < i ==> (#[trigger] blocks@[j]).thumbnail_id@ != id@,
        decreases blocks@.len() - i,
    {
        if same_text(blocks[i].thumbnail_id.as_str(), id) {
            assert(first_block(response.blocks@, id@, i as int));
            return Ok(blocks.remove(i));
        }
        i += 1;
    }
    let mut reason: String = owned("thumbnail block not returned");
    let mut k: usize = 0;
    while k < errors.len()
        invariant_except_break
            k <= errors@.len(),
            reason@ == "thumbnail block not returned"@,
            forall|j: int| 0 <= j < k ==> (#[trigger] errors@[j]).thumbnail_id@ != id@,
        ensures
            is_reason(reason@, errors@, id@),
        decreases errors@.len() - k,
    {
        if same_text(errors[k].thumbnail_id.as_str(), id) {
            reason = errors[k].error.clone();
            assert(first_error(errors@, id@, k as int));
            break;
        }
        k += 1;
    }
    assert(is_reason(reason@, response.errors@, id@));
    Err(ProtonError::InvalidOperation(joined("resolve thumbnail block: ", reason.as_str())))
}

/// A thumbnail that is taken is one that was waited for, under the id that it is taken
/// by: the ids are gone through in order, and none is answered twice.
pub proof fn law_thumbnails_are_taken_by_their_id(
    targets: Seq<ThumbnailTarget>,
    ids: Seq<Seq<char>>,
    j: int,
    k: int,
)
    requires
        distinct_targets(targets),
    ensures
        0 <= j < taken(targets, ids).len() ==> {
            let (at, target) = taken(targets, ids)[j];
            &&& 0 <= at < ids.len()
            &&& target.thumbnail_id@ == ids[at]
            &&& targets.contains(target)
        },
        0 <= j < k < taken(targets, ids).len() ==> taken(targets, ids)[j].0 < taken(
            targets,
            ids,
        )[k].0,
        forall|i: int|
            0 <= i < left(targets, ids).len() ==> targets.contains(
                #[trigger] left(targets, ids)[i],
            ),
    decreases ids.len(),
{
    if ids.len() > 0 {
        let fewer = ids.drop_last();
        law_thumbnails_are_taken_by_their_id(targets, fewer, j, k);
        law_no_thumbnail_is_lost(targets, fewer);
        let before = left(targets, fewer);
        let entries = taken(targets, fewer);
        let id = ids.last();
        if has_target(before, id) {
            let slot = target_slot(before, id);
            assert(targets.contains(before[slot]));
            let after = before.remove(slot);
            assert forall|i: int| 0 <= i < after.len() implies targets.contains(
                #[trigger] after[i],
            ) by {
                if i < slot {
                    assert(after[i] == before[i]);
                } else {
                    assert(after[i] == before[i + 1]);
                }
            }
            if 0 <= j < k && k == entries.len() {
                law_thumbnails_are_taken_by_their_id(targets, fewer, j, j);
            }
        }
        if 0 <= j < entries.len() {
            assert(taken(targets, ids)[j] == entries[j]);
            assert(ids[entries[j].0] == fewer[entries[j].0]);
        }
    } else {
        assert forall|i: int| 0 <= i < targets.len() implies targets.contains(
            #[trigger] targets[i],
        ) by {}
    }
}

/// What is reported of the thumbnails that could not be had: each file once, with the
/// reason for its own id. What was reported before stays.
pub proof fn law_refusals_name_file_and_reason(
    reports: Seq<FileThumbnail>,
    entries: Seq<(int, ThumbnailTarget)>,
    message: spec_fn(int) -> Seq<char>,
    longer: Seq<FileThumbnail>,
    shorter: Seq<FileThumbnail>,
    volume: Seq<char>,
    link: Seq<char>,
    i: int,
)
    ensures
        are_refusals(reports, entries, message) ==> reports.len() == entries.len(),
        are_refusals(reports, entries, message) && 0 <= i < reports.len() ==> {
            &&& reports[i].file_uid == entries[i].1.uid
            &&& reports[i].result is Err
            &&& reports[i].result->Err_0 is InvalidOperation
            &&& reports[i].result->Err_0->InvalidOperation_0@ == message(entries[i].0)
        },
        extends(longer, shorter) ==> shorter.len() <= longer.len(),
        extends(longer, shorter) && 0 <= i < shorter.len() ==> longer[i] == shorter[i],
        no_thumbnail((volume, link)) == "node "@ + volume + seq!['~'] + link
            + " has no thumbnail of the requested type"@,
{
    assert(no_thumbnail((volume, link)) =~= "node "@ + volume + seq!['~'] + link
        + " has no thumbnail of the requested type"@);
    if are_refusals(reports, entries, message) && 0 <= i < reports.len() {
        assert(reports[i].file_uid == entries[i].1.uid);
    }
    if extends(longer, shorter) && 0 <= i < shorter.len() {
        assert(longer.take(shorter.len() as int)[i] == shorter[i]);
    }
}

/// A thumbnail is fetched from the block that the server gave for its id, and the ids
/// are those of the blocks and of the refusals.
pub proof fn law_thumbnails_are_fetched_from_their_block(
    fetch: (ThumbnailTarget, ThumbnailBlock),
    entry: (int, ThumbnailTarget),
    blocks: Seq<ThumbnailBlock>,
    errors: Seq<ThumbnailBlockError>,
    id: Seq<char>,
    reason: Seq<char>,
    i: int,
)
    ensures
        is_fetch(fetch, entry, blocks) ==> fetch.0 == entry.1 && 0 <= entry.0 < blocks.len()
            && fetch.1 == blocks[entry.0],
        block_ids(blocks).len() == blocks.len(),
        0 <= i < blocks.len() ==> block_ids(blocks)[i] == blocks[i].thumbnail_id@,
        error_ids(errors).len() == errors.len(),
        0 <= i < errors.len() ==> error_ids(errors)[i] == errors[i].thumbnail_id@,
        first_block(blocks, id, i) <==> 0 <= i < blocks.len() && blocks[i].thumbnail_id@ == id && (
        forall|j: int| 0 <= j < i ==> (#[trigger] blocks[j]).thumbnail_id@ != id),
        is_reason(reason, errors, id) && (forall|j: int|
            0 <= j < errors.len() ==> (#[trigger] errors[j]).thumbnail_id@ != id) ==> reason
            == "thumbnail block not returned"@,
        is_reason(reason, errors, id) && 0 <= i < errors.len() && errors[i].thumbnail_id@ == id && (
        forall|j: int| 0 <= j < i ==> (#[trigger] errors[j]).thumbnail_id@ != id) ==> reason
            == errors[i].error@,
{
    if 0 <= i < errors.len() && errors[i].thumbnail_id@ == id && (forall|j: int|
        0 <= j < i ==> (#[trigger] errors[j]).thumbnail_id@ != id) {
        assert(first_error(errors, id, i));
        assert forall|k: int| #[trigger] first_error(errors, id, k) implies k == i by {
            assert(errors[k].thumbnail_id@ == id);
        }
    }
}

} // verus!
