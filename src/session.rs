//! The insertion of one entry as a sequence of storage steps: the session
//! says which read or write comes next, given the answer to the last one.
//! Whoever holds the storage runs the steps inside one transaction, commits
//! on `Commit` and rolls back on `Rollback`.
use vstd::prelude::*;

use crate::ids::{
    append_bytes, device_root, get_joenal_root, jot_id_of, mapping_id_of, mk_jot_id, mk_mapping_id,
    mk_tag_id, tag_id_of, Uuid,
};
use crate::models::{text_plain_utf_8, Jot, Mapping, MappingView, RawJot, Tag};
use crate::store::{
    bump_score, identity_of, jot_row, new_tag_row, next_score, opt_score, resolve_jot_id, StoreError,
};
use crate::text::canonicalize_tag;

verus! {

/// Where a session stands.
#[derive(Clone, Copy, Debug, PartialEq, Eq, Structural)]
pub enum Phase {
    /// Nothing asked yet.
    Start,
    /// Waiting to learn whether the derived jot id is taken.
    Check,
    /// Waiting for the jot row to be written.
    JotWrite,
    /// Waiting for the current tag's score.
    Score,
    /// Waiting for the current tag's row or score to be written.
    TagWrite,
    /// Waiting for the current mapping to be written.
    MappingWrite,
    /// Committed or rolled back.
    Finished,
}

/// The answer to the last step.
#[derive(Clone, Copy, Debug, PartialEq, Eq, Structural)]
pub enum Event {
    /// Start the session.
    Begin,
    /// Whether a jot row with the asked id is stored.
    Exists(bool),
    /// The asked tag's score, or `None` where it has no row.
    Score(Option<i32>),
    /// The asked write was done.
    Written,
    /// The asked write was refused.
    Failed(StoreError),
}

/// What the storage is to do next.
#[derive(Debug)]
pub enum Step {
    /// Tell whether a jot row with this id is stored.
    CheckJot(Uuid),
    /// Write this jot row.
    InsertJot(Jot),
    /// Read the score of the tag with this id.
    ReadScore(Uuid),
    /// Write this new tag row.
    InsertTag(Tag),
    /// Set the score of the tag with this id.
    UpdateScore(Uuid, i32),
    /// Write this mapping row.
    InsertMapping(Mapping),
    /// Commit the transaction.
    Commit,
    /// Roll the transaction back.
    Rollback(StoreError),
}

/// The insertion of one entry, step by step.
pub struct InsertSession {
    pub jot: RawJot,
    pub device: Uuid,
    /// The id the jot row gets where its derived id is taken.
    pub fresh: Uuid,
    pub derived: Uuid,
    pub jot_id: Uuid,
    pub phase: Phase,
    /// The tag being worked on.
    pub index: usize,
    pub tag_id: Uuid,
}

impl InsertSession {
    /// While a tag is being worked on, it is one of the entry's tags and
    /// `tag_id` is its id.
    pub open spec fn wf(self) -> bool {
        (self.phase == Phase::Score || self.phase == Phase::TagWrite || self.phase == Phase::MappingWrite)
            ==> self.index < self.jot.tags@.len() && self.tag_id@ == tag_id_of(self.jot.tags@[self.index as int]@)
    }

    /// The inputs of the session are as they were.
    pub open spec fn same_entry(self, other: InsertSession) -> bool {
        &&& self.jot == other.jot
        &&& self.device == other.device
        &&& self.fresh == other.fresh
        &&& self.derived == other.derived
    }

    /// After a write that ends tag `i - 1` (or the jot row, for `i == 0`):
    /// the score of tag `i` is read next, or the transaction is committed.
    pub open spec fn moves_to_tag(old: InsertSession, i: int, new: InsertSession, r: Step) -> bool {
        &&& new.same_entry(old)
        &&& new.jot_id == old.jot_id
        &&& if i < old.jot.tags@.len() {
            &&& r matches Step::ReadScore(t) && t@ == tag_id_of(old.jot.tags@[i]@) && new.tag_id == t
            &&& new.phase == Phase::Score
            &&& new.index == i
        } else {
            r is Commit && new.phase == Phase::Finished
        }
    }

    /// A session for inserting `jot` from device `device`, with `fresh`
    /// standing by as the row id where the derived id is taken.
    pub fn new(jot: RawJot, device: Uuid, fresh: Uuid) -> (r: InsertSession)
        ensures
            r.jot == jot,
            r.device == device,
            r.fresh == fresh,
            r.derived@ == jot_id_of(device_root(device@), jot.content@, jot.creation_date),
            r.phase == Phase::Start,
            r.index == 0,
            r.wf(),
    {
        let root = get_joenal_root(&device);
        let derived = mk_jot_id(&root, &jot);
        InsertSession { jot, device, fresh, derived, jot_id: derived, phase: Phase::Start, index: 0, tag_id: derived }
    }

    /// The step that follows `event`.
    pub fn next(&mut self, event: Event) -> (r: Step)
        requires
            old(self).wf(),
        ensures
            final(self).wf(),
            match (old(self).phase, event) {
                (_, Event::Failed(e)) => r == Step::Rollback(e) && final(self).phase == Phase::Finished,
                (Phase::Start, Event::Begin) => {
                    &&& r == Step::CheckJot(old(self).derived)
                    &&& final(self).phase == Phase::Check
                    &&& final(self).same_entry(*old(self))
                },
                (Phase::Check, Event::Exists(taken)) => {
                    let (id, dup) = identity_of(old(self).derived@, taken, old(self).fresh@);
                    &&& r matches Step::InsertJot(row) && row@ == jot_row(
                        id,
                        dup,
                        old(self).jot.content@,
                        old(self).jot.creation_date,
                        old(self).device@,
                    ) && final(self).jot_id == row.jot_id
                    &&& final(self).phase == Phase::JotWrite
                    &&& final(self).same_entry(*old(self))
                },
                (Phase::JotWrite, Event::Written) => InsertSession::moves_to_tag(*old(self), 0, *final(self), r),
                (Phase::Score, Event::Score(s)) => {
                    let i = old(self).index as int;
                    let text = old(self).jot.tags@[i]@;
                    match next_score(opt_score(s)) {
                        None => r == Step::Rollback(StoreError::ScoreOverflow) && final(self).phase == Phase::Finished,
                        Some(n) => {
                            &&& if s is None {
                                r matches Step::InsertTag(t) && t@ == new_tag_row(text, old(self).jot.creation_date, old(self).device@)
                            } else {
                                r matches Step::UpdateScore(id, m) && id == old(self).tag_id && m == n
                            }
                            &&& final(self).phase == Phase::TagWrite
                            &&& final(self).index == old(self).index
                            &&& final(self).tag_id == old(self).tag_id
                            &&& final(self).jot_id == old(self).jot_id
                            &&& final(self).same_entry(*old(self))
                        },
                    }
                },
                (Phase::TagWrite, Event::Written) => {
                    &&& r matches Step::InsertMapping(m) && m@ == MappingView {
                        mapping_id: mapping_id_of(old(self).jot_id@, old(self).tag_id@),
                        tag_id: old(self).tag_id@,
                        jot_id: old(self).jot_id@,
                        mapping_date: Some(old(self).jot.creation_date),
                    }
                    &&& final(self).phase == Phase::MappingWrite
                    &&& final(self).index == old(self).index
                    &&& final(self).tag_id == old(self).tag_id
                    &&& final(self).jot_id == old(self).jot_id
                    &&& final(self).same_entry(*old(self))
                },
                (Phase::MappingWrite, Event::Written) => InsertSession::moves_to_tag(
                    *old(self),
                    old(self).index + 1,
                    *final(self),
                    r,
                ),
                _ => r == Step::Rollback(StoreError::OutOfOrder) && final(self).phase == Phase::Finished,
            },
    {
        if let Event::Failed(e) = event {
            self.phase = Phase::Finished;
            return Step::Rollback(e);
        }
        match (self.phase, event) {
            (Phase::Start, Event::Begin) => {
                self.phase = Phase::Check;
                Step::CheckJot(self.derived)
            },
            (Phase::Check, Event::Exists(taken)) => {
                let ident = resolve_jot_id(self.derived, taken, self.fresh);
                let mut content: Vec<u8> = Vec::new();
                append_bytes(&mut content, self.jot.content.as_str().as_bytes());
                let row = Jot::new(
                    ident.jot_id,
                    Some(self.jot.creation_date),
                    content,
                    text_plain_utf_8(),
                    self.device,
                    ident.dup_id,
                );
                self.jot_id = ident.jot_id;
                self.phase = Phase::JotWrite;
                Step::InsertJot(row)
            },
            (Phase::JotWrite, Event::Written) => {
                self.index = 0;
                self.to_tag()
            },
            (Phase::Score, Event::Score(s)) => {
                match bump_score(s) {
                    None => {
                        self.phase = Phase::Finished;
                        Step::Rollback(StoreError::ScoreOverflow)
                    },
                    Some(n) => {
                        self.phase = Phase::TagWrite;
                        match s {
                            None => {
                                let text = canonicalize_tag(self.jot.tags[self.index].as_str());
                                Step::InsertTag(
                                    Tag::new(text, self.tag_id, self.device, Some(self.jot.creation_date), n),
                                )
                            },
                            Some(_) => Step::UpdateScore(self.tag_id, n),
                        }
                    },
                }
            },
            (Phase::TagWrite, Event::Written) => {
                let mid = mk_mapping_id(&self.jot_id, &self.tag_id);
                self.phase = Phase::MappingWrite;
                Step::InsertMapping(Mapping::new(mid, self.tag_id, self.jot_id, Some(self.jot.creation_date)))
            },
            (Phase::MappingWrite, Event::Written) => {
                let count = self.jot.tags.len();
                assert(self.index < count);
                self.index = self.index + 1;
                self.to_tag()
            },
            _ => {
                self.phase = Phase::Finished;
                Step::Rollback(StoreError::OutOfOrder)
            },
        }
    }

    /// Moves on to the tag at `index`, or commits after the last one.
    fn to_tag(&mut self) -> (r: Step)
        ensures
            final(self).wf(),
            InsertSession::moves_to_tag(*old(self), old(self).index as int, *final(self), r),
    {
        if self.index < self.jot.tags.len() {
            let id = mk_tag_id(self.jot.tags[self.index].as_str());
            self.tag_id = id;
            self.phase = Phase::Score;
            Step::ReadScore(id)
        } else {
            self.phase = Phase::Finished;
            Step::Commit
        }
    }
}

} // verus!
