//! The jot, tag and mapping tables, and the transaction that inserts one entry.
use vstd::prelude::*;
use vstd::utf8::encode_utf8;

use crate::ids::{device_root, jot_id_of, mapping_id_of, new_v4, ns_uuid, tag_id_of, Uuid};
use crate::models::{
    jot_views, mapping_views, opt_id, tag_views, utf8_text_mime, Jot, JotView, Mapping, MappingView, RawJot, Tag,
    TagView,
};
use crate::session::{Event, InsertSession, Phase, Step};
use crate::stardate::StarDate;
use crate::text::canonical_tag;

verus! {

/// Why an insertion was rolled back.
#[derive(Clone, Copy, Debug, PartialEq, Eq, Structural)]
pub enum StoreError {
    /// A row with the same primary key is already stored.
    DuplicateKey,
    /// A tag's score is already the largest that its column holds.
    ScoreOverflow,
    /// An insertion session was handed an event it did not ask for.
    OutOfOrder,
}

/// The contents of the three tables.
pub struct DbView {
    pub jots: Seq<JotView>,
    pub tags: Seq<TagView>,
    pub mappings: Seq<MappingView>,
}

/// How many mappings refer to tag `tag`.
pub open spec fn count_refs(maps: Seq<MappingView>, tag: Seq<u8>) -> nat
    decreases maps.len(),
{
    if maps.len() == 0 {
        0
    } else {
        count_refs(maps.drop_last(), tag) + if maps.last().tag_id == tag {
            1nat
        } else {
            0nat
        }
    }
}

impl DbView {
    pub open spec fn has_jot(self, id: Seq<u8>) -> bool {
        exists|i: int| 0 <= i < self.jots.len() && self.jots[i].jot_id == id
    }

    pub open spec fn has_tag(self, id: Seq<u8>) -> bool {
        exists|k: int| 0 <= k < self.tags.len() && self.tags[k].tag_id == id
    }

    pub open spec fn has_mapping(self, id: Seq<u8>) -> bool {
        exists|m: int| 0 <= m < self.mappings.len() && self.mappings[m].mapping_id == id
    }

    /// The row of tag `id`, where there is one.
    pub open spec fn tag_index(self, id: Seq<u8>) -> int {
        choose|k: int| 0 <= k < self.tags.len() && self.tags[k].tag_id == id
    }

    /// The score of tag `id`, or `None` where the tag has never been used.
    pub open spec fn score_of(self, id: Seq<u8>) -> Option<int> {
        if self.has_tag(id) {
            Some(self.tags[self.tag_index(id)].score)
        } else {
            None
        }
    }

    /// Keys are unique; a tag row's id is that of its canonical text, so no
    /// two rows share a text; a mapping's id is that of its jot and tag, and it
    /// refers to a stored jot and a stored tag; each tag's score is the number
    /// of mappings that refer to it.
    pub open spec fn wf(self) -> bool {
        &&& forall|i: int, j: int|
            0 <= i < self.jots.len() && 0 <= j < self.jots.len() && i != j
                ==> self.jots[i].jot_id != self.jots[j].jot_id
        &&& forall|i: int, j: int|
            0 <= i < self.tags.len() && 0 <= j < self.tags.len() && i != j
                ==> self.tags[i].tag_id != self.tags[j].tag_id
        &&& forall|k: int|
            0 <= k < self.tags.len() ==> (#[trigger] self.tags[k]).tag_id == ns_uuid(
                encode_utf8(self.tags[k].text),
            )
        &&& forall|i: int, j: int|
            0 <= i < self.tags.len() && 0 <= j < self.tags.len() && i != j
                ==> self.tags[i].text != self.tags[j].text
        &&& forall|m: int|
            0 <= m < self.mappings.len() ==> (#[trigger] self.mappings[m]).mapping_id
                == mapping_id_of(self.mappings[m].jot_id, self.mappings[m].tag_id)
        &&& forall|i: int, j: int|
            0 <= i < self.mappings.len() && 0 <= j < self.mappings.len() && i != j
                ==> self.mappings[i].mapping_id != self.mappings[j].mapping_id
        &&& forall|m: int|
            0 <= m < self.mappings.len() ==> self.has_tag(#[trigger] self.mappings[m].tag_id)
                && self.has_jot(self.mappings[m].jot_id)
        &&& forall|k: int|
            0 <= k < self.tags.len() ==> #[trigger] self.tags[k].score == count_refs(
                self.mappings,
                self.tags[k].tag_id,
            )
    }
}

/// The score a tag gets from one more use: 1 for a new tag, one more for a
/// known one, and `None` where that would pass the largest `i32`.
pub open spec fn next_score(score: Option<int>) -> Option<int> {
    match score {
        None => Some(1),
        Some(s) => if s < i32::MAX {
            Some(s + 1)
        } else {
            None
        },
    }
}

/// An optional `i32` score as an integer.
pub open spec fn opt_score(score: Option<i32>) -> Option<int> {
    match score {
        Some(s) => Some(s as int),
        None => None,
    }
}

/// The score a tag gets from one more use.
pub fn bump_score(score: Option<i32>) -> (r: Option<i32>)
    ensures
        r matches Some(n) ==> next_score(opt_score(score)) == Some(n as int),
        r is None ==> next_score(opt_score(score)) is None,
{
    match score {
        None => Some(1),
        Some(s) => if s < i32::MAX {
            Some(s + 1)
        } else {
            None
        },
    }
}

/// The id a new jot row gets and the collision it records.
#[derive(Clone, Copy, Debug)]
pub struct JotIdentity {
    pub jot_id: Uuid,
    pub dup_id: Option<Uuid>,
}

/// The id under which an entry is stored: the derived id where it is free; else
/// `fresh`, with the derived id kept as the duplicate marker.
pub open spec fn identity_of(derived: Seq<u8>, taken: bool, fresh: Seq<u8>) -> (Seq<u8>, Option<Seq<u8>>) {
    if taken {
        (fresh, Some(derived))
    } else {
        (derived, None)
    }
}

/// Chooses the row id and duplicate marker of a new jot, given whether its
/// derived id is already stored.
pub fn resolve_jot_id(derived: Uuid, taken: bool, fresh: Uuid) -> (r: JotIdentity)
    ensures
        (r.jot_id@, opt_id(r.dup_id)) == identity_of(derived@, taken, fresh@),
{
    if taken {
        JotIdentity { jot_id: fresh, dup_id: Some(derived) }
    } else {
        JotIdentity { jot_id: derived, dup_id: None }
    }
}

/// The jot row stored for an entry.
pub open spec fn jot_row(
    id: Seq<u8>,
    dup: Option<Seq<u8>>,
    content: Seq<char>,
    date: StarDate,
    device: Seq<u8>,
) -> JotView {
    JotView {
        jot_id: id,
        creation_date: Some(date),
        content: encode_utf8(content),
        content_type: utf8_text_mime(),
        device_id: device,
        dup_id: dup,
    }
}

/// The tag row stored on a tag's first use.
pub open spec fn new_tag_row(text: Seq<char>, date: StarDate, device: Seq<u8>) -> TagView {
    TagView {
        tag_id: tag_id_of(text),
        creation_date: Some(date),
        text: canonical_tag(text),
        device_id: device,
        score: 1,
    }
}

/// The tags after one more use of tag `text`.
pub open spec fn tags_after_use(db: DbView, text: Seq<char>, date: StarDate, device: Seq<u8>) -> Seq<TagView> {
    let tid = tag_id_of(text);
    if db.has_tag(tid) {
        let k = db.tag_index(tid);
        let t = db.tags[k];
        db.tags.update(
            k,
            TagView {
                tag_id: t.tag_id,
                creation_date: t.creation_date,
                text: t.text,
                device_id: t.device_id,
                score: t.score + 1,
            },
        )
    } else {
        db.tags.push(new_tag_row(text, date, device))
    }
}

/// One tag of an entry: the tag's score goes up by one (or its row is created
/// with score 1), and a mapping from the jot to the tag is added.
pub open spec fn apply_tag(
    db: DbView,
    jot_id: Seq<u8>,
    text: Seq<char>,
    date: StarDate,
    device: Seq<u8>,
) -> Result<DbView, StoreError> {
    let tid = tag_id_of(text);
    let mid = mapping_id_of(jot_id, tid);
    if next_score(db.score_of(tid)) is None {
        Err(StoreError::ScoreOverflow)
    } else if db.has_mapping(mid) {
        Err(StoreError::DuplicateKey)
    } else {
        Ok(
            DbView {
                jots: db.jots,
                tags: tags_after_use(db, text, date, device),
                mappings: db.mappings.push(
                    MappingView { mapping_id: mid, tag_id: tid, jot_id, mapping_date: Some(date) },
                ),
            },
        )
    }
}

/// The tags of an entry, in order; the first failure stops the run.
pub open spec fn apply_tags(
    db: DbView,
    jot_id: Seq<u8>,
    texts: Seq<Seq<char>>,
    date: StarDate,
    device: Seq<u8>,
) -> Result<DbView, StoreError>
    decreases texts.len(),
{
    if texts.len() == 0 {
        Ok(db)
    } else {
        match apply_tags(db, jot_id, texts.drop_last(), date, device) {
            Ok(d) => apply_tag(d, jot_id, texts.last(), date, device),
            Err(e) => Err(e),
        }
    }
}

/// The whole insertion of an entry: the jot row under its resolved id, then
/// each of its tags.
pub open spec fn apply_entry(
    db: DbView,
    device: Seq<u8>,
    content: Seq<char>,
    date: StarDate,
    texts: Seq<Seq<char>>,
    fresh: Seq<u8>,
) -> Result<DbView, StoreError> {
    let derived = jot_id_of(device_root(device), content, date);
    let (id, dup) = identity_of(derived, db.has_jot(derived), fresh);
    if db.has_jot(id) {
        Err(StoreError::DuplicateKey)
    } else {
        apply_tags(
            DbView {
                jots: db.jots.push(jot_row(id, dup, content, date, device)),
                tags: db.tags,
                mappings: db.mappings,
            },
            id,
            texts,
            date,
            device,
        )
    }
}

/// One more mapping adds one to the count of its own tag and nothing to others.
pub proof fn lemma_count_push(maps: Seq<MappingView>, m: MappingView, tag: Seq<u8>)
    ensures
        count_refs(maps.push(m), tag) == count_refs(maps, tag) + if m.tag_id == tag {
            1nat
        } else {
            0nat
        },
{
    assert(maps.push(m).drop_last() =~= maps);
}

/// No mapping refers to `tag`, so none is counted.
pub proof fn lemma_count_zero(maps: Seq<MappingView>, tag: Seq<u8>)
    requires
        forall|i: int| 0 <= i < maps.len() ==> (#[trigger] maps[i]).tag_id != tag,
    ensures
        count_refs(maps, tag) == 0,
    decreases maps.len(),
{
    if maps.len() > 0 {
        let rest = maps.drop_last();
        assert forall|i: int| 0 <= i < rest.len() implies (#[trigger] rest[i]).tag_id != tag by {
            assert(rest[i] == maps[i]);
        }
        lemma_count_zero(rest, tag);
    }
}

/// Adding a jot row under a free id keeps the tables well formed.
pub proof fn lemma_push_jot_wf(db: DbView, row: JotView)
    requires
        db.wf(),
        !db.has_jot(row.jot_id),
    ensures
        ({
            let d = DbView { jots: db.jots.push(row), tags: db.tags, mappings: db.mappings };
            d.wf() && d.has_jot(row.jot_id)
        }),
{
    let d = DbView { jots: db.jots.push(row), tags: db.tags, mappings: db.mappings };
    assert(d.jots[db.jots.len() as int] == row);
    assert forall|m: int| 0 <= m < d.mappings.len() implies d.has_tag(
        #[trigger] d.mappings[m].tag_id,
    ) && d.has_jot(d.mappings[m].jot_id) by {
        assert(db.has_tag(db.mappings[m].tag_id));
        assert(db.has_jot(db.mappings[m].jot_id));
        let i = choose|i: int| 0 <= i < db.jots.len() && db.jots[i].jot_id == db.mappings[m].jot_id;
        assert(d.jots[i] == db.jots[i]);
    }
    assert forall|i: int, j: int|
        0 <= i < d.jots.len() && 0 <= j < d.jots.len() && i != j implies d.jots[i].jot_id
        != d.jots[j].jot_id by {
        if i < db.jots.len() && j < db.jots.len() {
        } else if i < db.jots.len() {
            assert(db.jots[i].jot_id != row.jot_id);
        } else {
            assert(db.jots[j].jot_id != row.jot_id);
        }
    }
}

/// One tag step keeps the tables well formed, leaves the jots as they were,
/// and appends one mapping.
pub proof fn lemma_apply_tag_wf(
    db: DbView,
    jot_id: Seq<u8>,
    text: Seq<char>,
    date: StarDate,
    device: Seq<u8>,
)
    requires
        db.wf(),
        db.has_jot(jot_id),
    ensures
        apply_tag(db, jot_id, text, date, device) matches Ok(v) ==> {
            &&& v.wf()
            &&& v.jots == db.jots
            &&& v.has_jot(jot_id)
            &&& v.mappings == db.mappings.push(v.mappings.last())
            &&& v.mappings.last().tag_id == tag_id_of(text)
            &&& v.mappings.last().jot_id == jot_id
        },
{
    let tid = tag_id_of(text);
    let mid = mapping_id_of(jot_id, tid);
    if let Ok(v) = apply_tag(db, jot_id, text, date, device) {
        let m = MappingView { mapping_id: mid, tag_id: tid, jot_id, mapping_date: Some(date) };
        assert(v.mappings == db.mappings.push(m));
        assert(v.mappings.last() == m);
        let n = db.tags.len() as int;
        if db.has_tag(tid) {
            let k = db.tag_index(tid);
            assert(v.tags.len() == db.tags.len());
            assert forall|i: int| 0 <= i < n implies #[trigger] v.tags[i].tag_id == db.tags[i].tag_id by {}
        } else {
            assert(v.tags.len() == n + 1);
            assert forall|i: int| 0 <= i < n implies #[trigger] v.tags[i] == db.tags[i] by {}
            assert(v.tags[n].tag_id == tid);
            assert forall|i: int| 0 <= i < db.mappings.len() implies (
            #[trigger] db.mappings[i]).tag_id != tid by {
                assert(db.has_tag(db.mappings[i].tag_id));
            }
            lemma_count_zero(db.mappings, tid);
        }
        // every stored tag id is still stored
        assert forall|x: Seq<u8>| db.has_tag(x) implies v.has_tag(x) by {
            let i = choose|i: int| 0 <= i < db.tags.len() && db.tags[i].tag_id == x;
            assert(v.tags[i].tag_id == x);
        }
        assert(v.has_tag(tid)) by {
            if db.has_tag(tid) {
                assert(v.tags[db.tag_index(tid)].tag_id == tid);
            } else {
                assert(v.tags[n].tag_id == tid);
            }
        }
        assert forall|i: int| 0 <= i < v.mappings.len() implies v.has_tag(
            #[trigger] v.mappings[i].tag_id,
        ) && v.has_jot(v.mappings[i].jot_id) by {
            if i < db.mappings.len() {
                assert(v.mappings[i] == db.mappings[i]);
                assert(db.has_tag(db.mappings[i].tag_id));
                assert(db.has_jot(db.mappings[i].jot_id));
            }
        }
        assert forall|i: int, j: int|
            0 <= i < v.mappings.len() && 0 <= j < v.mappings.len() && i != j implies v.mappings[i].mapping_id
            != v.mappings[j].mapping_id by {
            if i < db.mappings.len() && j < db.mappings.len() {
                assert(v.mappings[i] == db.mappings[i]);
                assert(v.mappings[j] == db.mappings[j]);
            } else if i < db.mappings.len() {
                assert(v.mappings[i] == db.mappings[i]);
            } else {
                assert(v.mappings[j] == db.mappings[j]);
            }
        }
        assert forall|i: int, j: int|
            0 <= i < v.tags.len() && 0 <= j < v.tags.len() && i != j implies v.tags[i].tag_id
            != v.tags[j].tag_id by {
            if i < n && j < n {
            } else if i < n {
                assert(db.tags[i].tag_id != tid);
            } else {
                assert(db.tags[j].tag_id != tid);
            }
        }
        assert forall|k: int| 0 <= k < v.tags.len() implies #[trigger] v.tags[k].score
            == count_refs(v.mappings, v.tags[k].tag_id) by {
            lemma_count_push(db.mappings, m, v.tags[k].tag_id);
            if k < n {
                assert(db.tags[k].score == count_refs(db.mappings, db.tags[k].tag_id));
            }
        }
    }
}

/// Every step of a run of tags keeps the tables well formed and only appends
/// mappings.
pub proof fn lemma_apply_tags_wf(
    db: DbView,
    jot_id: Seq<u8>,
    texts: Seq<Seq<char>>,
    date: StarDate,
    device: Seq<u8>,
)
    requires
        db.wf(),
        db.has_jot(jot_id),
    ensures
        apply_tags(db, jot_id, texts, date, device) matches Ok(v) ==> {
            &&& v.wf()
            &&& v.jots == db.jots
            &&& v.has_jot(jot_id)
            &&& v.mappings.len() >= db.mappings.len()
            &&& v.mappings.subrange(0, db.mappings.len() as int) == db.mappings
            &&& forall|i: int|
                db.mappings.len() <= i < v.mappings.len() ==> (#[trigger] v.mappings[i]).jot_id
                    == jot_id
        },
    decreases texts.len(),
{
    if texts.len() > 0 {
        lemma_apply_tags_wf(db, jot_id, texts.drop_last(), date, device);
        if let Ok(d) = apply_tags(db, jot_id, texts.drop_last(), date, device) {
            lemma_apply_tag_wf(d, jot_id, texts.last(), date, device);
            if let Ok(v) = apply_tag(d, jot_id, texts.last(), date, device) {
                assert(v.mappings.subrange(0, db.mappings.len() as int) =~= d.mappings.subrange(
                    0,
                    db.mappings.len() as int,
                ));
                assert forall|i: int|
                    db.mappings.len() <= i < v.mappings.len() implies (#[trigger] v.mappings[i]).jot_id
                    == jot_id by {
                    if i < d.mappings.len() {
                        assert(v.mappings[i] == d.mappings[i]);
                    }
                }
            }
        }
    } else {
        assert(db.mappings.subrange(0, db.mappings.len() as int) =~= db.mappings);
    }
}

/// An insertion that succeeds leaves the tables well formed.
pub proof fn lemma_apply_entry_wf(
    db: DbView,
    device: Seq<u8>,
    content: Seq<char>,
    date: StarDate,
    texts: Seq<Seq<char>>,
    fresh: Seq<u8>,
)
    requires
        db.wf(),
    ensures
        apply_entry(db, device, content, date, texts, fresh) matches Ok(v) ==> v.wf(),
{
    let derived = jot_id_of(device_root(device), content, date);
    let (id, dup) = identity_of(derived, db.has_jot(derived), fresh);
    if !db.has_jot(id) {
        let row = jot_row(id, dup, content, date, device);
        lemma_push_jot_wf(db, row);
        let d = DbView { jots: db.jots.push(row), tags: db.tags, mappings: db.mappings };
        lemma_apply_tags_wf(d, id, texts, date, device);
    }
}

/// A failure part-way through a run of tags is the run's result.
pub proof fn lemma_apply_tags_err_sticks(
    db: DbView,
    jot_id: Seq<u8>,
    texts: Seq<Seq<char>>,
    i: int,
    date: StarDate,
    device: Seq<u8>,
)
    requires
        0 <= i <= texts.len(),
        apply_tags(db, jot_id, texts.subrange(0, i), date, device) is Err,
    ensures
        apply_tags(db, jot_id, texts, date, device) == apply_tags(
            db,
            jot_id,
            texts.subrange(0, i),
            date,
            device,
        ),
    decreases texts.len() - i,
{
    if i == texts.len() {
        assert(texts.subrange(0, i) =~= texts);
    } else {
        assert(texts.subrange(0, i + 1).drop_last() =~= texts.subrange(0, i));
        lemma_apply_tags_err_sticks(db, jot_id, texts, i + 1, date, device);
    }
}

/// The jot, tag and mapping tables, held in memory.
pub struct JotDb {
    jots: Vec<Jot>,
    tags: Vec<Tag>,
    mappings: Vec<Mapping>,
}

impl View for JotDb {
    type V = DbView;

    closed spec fn view(&self) -> DbView {
        DbView {
            jots: jot_views(self.jots@),
            tags: tag_views(self.tags@),
            mappings: mapping_views(self.mappings@),
        }
    }
}

impl JotDb {
    /// Empty tables.
    pub fn new() -> (r: JotDb)
        ensures
            r@.jots.len() == 0,
            r@.tags.len() == 0,
            r@.mappings.len() == 0,
            r@.wf(),
    {
        JotDb { jots: Vec::new(), tags: Vec::new(), mappings: Vec::new() }
    }

    pub fn jot_count(&self) -> (r: usize)
        ensures
            r == self@.jots.len(),
    {
        self.jots.len()
    }

    pub fn tag_count(&self) -> (r: usize)
        ensures
            r == self@.tags.len(),
    {
        self.tags.len()
    }

    pub fn mapping_count(&self) -> (r: usize)
        ensures
            r == self@.mappings.len(),
    {
        self.mappings.len()
    }

    /// The `i`-th jot row, in order of insertion.
    pub fn jot(&self, i: usize) -> (r: &Jot)
        requires
            i < self@.jots.len(),
        ensures
            r@ == self@.jots[i as int],
    {
        &self.jots[i]
    }

    /// The `i`-th tag row, in order of first use.
    pub fn tag(&self, i: usize) -> (r: &Tag)
        requires
            i < self@.tags.len(),
        ensures
            r@ == self@.tags[i as int],
    {
        &self.tags[i]
    }

    /// The `i`-th mapping row, in order of insertion.
    pub fn mapping(&self, i: usize) -> (r: &Mapping)
        requires
            i < self@.mappings.len(),
        ensures
            r@ == self@.mappings[i as int],
    {
        &self.mappings[i]
    }

    /// Whether a jot row with id `id` is stored.
    pub fn jot_exists(&self, id: &Uuid) -> (r: bool)
        ensures
            r == self@.has_jot(id@),
    {
        let mut i: usize = 0;
        while i < self.jots.len()
            invariant
                0 <= i <= self.jots@.len(),
                forall|j: int| 0 <= j < i ==> self@.jots[j].jot_id != id@,
            decreases self.jots@.len() - i,
        {
            if self.jots[i].jot_id == *id {
                assert(self@.jots[i as int].jot_id == id@);
                return true;
            }
            i = i + 1;
        }
        false
    }

    /// The row of tag `id`, where there is one.
    fn find_tag(&self, id: &Uuid) -> (r: Option<usize>)
        ensures
            r matches Some(k) ==> k < self@.tags.len() && self@.tags[k as int].tag_id == id@,
            r is None ==> !self@.has_tag(id@),
    {
        let mut i: usize = 0;
        while i < self.tags.len()
            invariant
                0 <= i <= self.tags@.len(),
                forall|j: int| 0 <= j < i ==> self@.tags[j].tag_id != id@,
            decreases self.tags@.len() - i,
        {
            if self.tags[i].tag_id == *id {
                return Some(i);
            }
            i = i + 1;
        }
        None
    }

    /// Whether a mapping row with id `id` is stored.
    pub fn mapping_exists(&self, id: &Uuid) -> (r: bool)
        ensures
            r == self@.has_mapping(id@),
    {
        let mut i: usize = 0;
        while i < self.mappings.len()
            invariant
                0 <= i <= self.mappings@.len(),
                forall|j: int| 0 <= j < i ==> self@.mappings[j].mapping_id != id@,
            decreases self.mappings@.len() - i,
        {
            if self.mappings[i].mapping_id == *id {
                assert(self@.mappings[i as int].mapping_id == id@);
                return true;
            }
            i = i + 1;
        }
        false
    }

    /// The current score of tag `tag_id`, or `None` where it has never been used.
    pub fn get_score(&self, tag_id: &Uuid) -> (r: Option<i32>)
        requires
            self@.wf(),
        ensures
            opt_score(r) == self@.score_of(tag_id@),
    {
        match self.find_tag(tag_id) {
            Some(k) => {
                assert(self@.tag_index(tag_id@) == k);
                Some(self.tags[k].score)
            },
            None => None,
        }
    }

    /// A copy of the tag rows.
    fn clone_tags(&self) -> (r: Vec<Tag>)
        ensures
            tag_views(r@) == self@.tags,
    {
        let mut r: Vec<Tag> = Vec::new();
        let mut i: usize = 0;
        while i < self.tags.len()
            invariant
                0 <= i <= self.tags@.len(),
                r@.len() == i,
                forall|j: int| 0 <= j < i ==> (#[trigger] r@[j])@ == self.tags@[j]@,
            decreases self.tags@.len() - i,
        {
            let t = &self.tags[i];
            let c = Tag {
                tag_id: t.tag_id,
                tag_creation_date: t.tag_creation_date,
                tag_text: t.tag_text.clone(),
                device_id: t.device_id,
                score: t.score,
            };
            r.push(c);
            i = i + 1;
        }
        assert(tag_views(r@) =~= self@.tags);
        r
    }

    /// Undoes the writes of an insertion that failed.
    fn roll_back(&mut self, n_jots: usize, n_maps: usize, saved_tags: Vec<Tag>)
        ensures
            n_jots <= old(self).jots@.len() ==> final(self).jots@ == old(self).jots@.subrange(0, n_jots as int),
            n_maps <= old(self).mappings@.len() ==> final(self).mappings@ == old(self).mappings@.subrange(
                0,
                n_maps as int,
            ),
            final(self).tags@ == saved_tags@,
    {
        self.jots.truncate(n_jots);
        self.mappings.truncate(n_maps);
        self.tags = saved_tags;
    }

    /// Inserts an entry as one transaction, running the steps of an
    /// `InsertSession` against these tables: the jot row (under `fresh`, with
    /// the derived id as duplicate marker, where the derived id is taken),
    /// then for each tag its score and a mapping. On any failure nothing of
    /// the entry stays. On success the jot row's id is returned.
    pub fn insert_entry(&mut self, jot: &RawJot, device: &Uuid, fresh: Uuid) -> (r: Result<Uuid, StoreError>)
        requires
            old(self)@.wf(),
        ensures
            final(self)@.wf(),
            match apply_entry(
                old(self)@,
                device@,
                jot.content@,
                jot.creation_date,
                jot.tag_texts(),
                fresh@,
            ) {
                Ok(v) => r is Ok && final(self)@ == v,
                Err(e) => r == Err::<Uuid, StoreError>(e) && final(self)@ == old(self)@,
            },
            r matches Ok(id) ==> final(self)@.jots.last().jot_id == id@,
    {
        let ghost db = self@;
        let ghost texts = jot.tag_texts();
        let mut session = InsertSession::new(copy_entry(jot), *device, fresh);
        let ghost entry = session.jot;
        let derived = match session.next(Event::Begin) {
            Step::CheckJot(id) => id,
            _ => {
                assert(false);
                return Err(StoreError::OutOfOrder);
            },
        };
        let taken = self.jot_exists(&derived);
        let row = match session.next(Event::Exists(taken)) {
            Step::InsertJot(row) => row,
            _ => {
                assert(false);
                return Err(StoreError::OutOfOrder);
            },
        };
        let id = row.jot_id;
        let ghost dup = row@.dup_id;
        if self.jot_exists(&id) {
            return Err(StoreError::DuplicateKey);
        }
        let n_jots = self.jots.len();
        let n_maps = self.mappings.len();
        let saved_tags = self.clone_tags();
        let ghost row_view = row@;
        self.jots.push(row);
        let ghost db1 = DbView { jots: db.jots.push(row_view), tags: db.tags, mappings: db.mappings };
        assert(self@.jots =~= db1.jots);
        proof {
            lemma_push_jot_wf(db, row_view);
            assert(texts.subrange(0, 0) =~= Seq::<Seq<char>>::empty());
        }
        let ghost jots1 = self.jots@;
        let mut step = session.next(Event::Written);
        let mut i: usize = 0;
        loop
            invariant
                0 <= i <= jot.tags@.len(),
                texts == jot.tag_texts(),
                entry.tag_texts() == texts,
                entry.content@ == jot.content@,
                entry.creation_date == jot.creation_date,
                session.jot == entry,
                session.device == *device,
                session.wf(),
                session.jot_id == id,
                i < jot.tags@.len() ==> (step matches Step::ReadScore(t) && t@ == tag_id_of(texts[i as int])
                    && session.tag_id == t && session.phase == Phase::Score && session.index == i),
                i == jot.tags@.len() ==> step is Commit,
                db1.wf(),
                db1.has_jot(id@),
                apply_entry(db, device@, jot.content@, jot.creation_date, texts, fresh@)
                    == apply_tags(db1, id@, texts, jot.creation_date, device@),
                apply_tags(db1, id@, texts.subrange(0, i as int), jot.creation_date, device@)
                    == Ok::<DbView, StoreError>(self@),
                self.jots@ == jots1,
                jot_views(jots1) == db1.jots,
                db1.jots.last().jot_id == id@,
                jots1.len() == n_jots + 1,
                jots1.subrange(0, n_jots as int) == old(self).jots@,
                self.mappings@.len() >= n_maps,
                self.mappings@.subrange(0, n_maps as int) == old(self).mappings@,
                tag_views(saved_tags@) == db.tags,
                db == old(self)@,
                db.wf(),
                n_maps == old(self).mappings@.len(),
            decreases jot.tags@.len() - i,
        {
            let tid = match step {
                Step::Commit => {
                    proof {
                        assert(texts.subrange(0, jot.tags@.len() as int) =~= texts);
                        lemma_apply_tags_wf(db1, id@, texts, jot.creation_date, device@);
                    }
                    return Ok(id);
                },
                Step::ReadScore(t) => t,
                _ => {
                    assert(false);
                    return Err(StoreError::OutOfOrder);
                },
            };
            let ghost d = self@;
            let ghost text = texts[i as int];
            proof {
                lemma_apply_tags_wf(db1, id@, texts.subrange(0, i as int), jot.creation_date, device@);
                assert(texts.subrange(0, i + 1).drop_last() =~= texts.subrange(0, i as int));
                assert(texts.subrange(0, i + 1).last() == text);
            }
            let found = self.find_tag(&tid);
            let score = match found {
                Some(k) => {
                    assert(d.tag_index(tid@) == k);
                    Some(self.tags[k].score)
                },
                None => None,
            };
            assert(opt_score(score) == d.score_of(tid@));
            match session.next(Event::Score(score)) {
                Step::Rollback(e) => {
                    proof {
                        lemma_apply_tags_err_sticks(db1, id@, texts, i + 1, jot.creation_date, device@);
                    }
                    self.roll_back(n_jots, n_maps, saved_tags);
                    assert(self@.jots =~= db.jots);
                    assert(self@.mappings =~= db.mappings);
                    assert(self@ == db);
                    return Err(e);
                },
                Step::InsertTag(t) => {
                    self.tags.push(t);
                },
                Step::UpdateScore(_, n) => {
                    let k = match found {
                        Some(k) => k,
                        None => {
                            assert(false);
                            return Err(StoreError::OutOfOrder);
                        },
                    };
                    let t = &self.tags[k];
                    let bumped = Tag {
                        tag_id: t.tag_id,
                        tag_creation_date: t.tag_creation_date,
                        tag_text: t.tag_text.clone(),
                        device_id: t.device_id,
                        score: n,
                    };
                    self.tags.set(k, bumped);
                },
                _ => {
                    assert(false);
                    return Err(StoreError::OutOfOrder);
                },
            }
            assert(self@.tags =~= tags_after_use(d, text, jot.creation_date, device@));
            let m = match session.next(Event::Written) {
                Step::InsertMapping(m) => m,
                _ => {
                    assert(false);
                    return Err(StoreError::OutOfOrder);
                },
            };
            if self.mapping_exists(&m.mapping_id) {
                proof {
                    lemma_apply_tags_err_sticks(db1, id@, texts, i + 1, jot.creation_date, device@);
                }
                self.roll_back(n_jots, n_maps, saved_tags);
                assert(self@.jots =~= db.jots);
                assert(self@.mappings =~= db.mappings);
                assert(self@ == db);
                return Err(StoreError::DuplicateKey);
            }
            let ghost before = self.mappings@;
            self.mappings.push(m);
            assert(self@.mappings =~= d.mappings.push(m@));
            assert(self.mappings@.subrange(0, n_maps as int) =~= before.subrange(0, n_maps as int));
            step = session.next(Event::Written);
            let count = jot.tags.len();
            assert(i < count);
            i = i + 1;
        }
    }
}

/// A copy of an entry.
fn copy_entry(jot: &RawJot) -> (r: RawJot)
    ensures
        r.content@ == jot.content@,
        r.creation_date == jot.creation_date,
        r.tag_texts() == jot.tag_texts(),
{
    let mut tags: Vec<String> = Vec::new();
    let mut i: usize = 0;
    while i < jot.tags.len()
        invariant
            0 <= i <= jot.tags@.len(),
            tags@.len() == i,
            forall|j: int| 0 <= j < i ==> (#[trigger] tags@[j])@ == jot.tags@[j]@,
        decreases jot.tags@.len() - i,
    {
        tags.push(jot.tags[i].clone());
        i = i + 1;
    }
    let r = RawJot { content: jot.content.clone(), creation_date: jot.creation_date, tags };
    assert(r.tag_texts() =~= jot.tag_texts());
    r
}


/// Inserts an entry as one transaction, with a random version-4 id standing
/// by for the case where its derived id is taken. Whatever id that is, the
/// outcome is the one `insert_entry` gives for it.
pub fn insert_jot(db: &mut JotDb, jot: &RawJot, device: &Uuid) -> (r: Result<Uuid, StoreError>)
    requires
        old(db)@.wf(),
    ensures
        final(db)@.wf(),
        r is Err ==> final(db)@ == old(db)@,
        exists|fresh: Seq<u8>|
            fresh.len() == 16 && fresh[6] / 16 == 4 && match #[trigger] apply_entry(
                old(db)@,
                device@,
                jot.content@,
                jot.creation_date,
                jot.tag_texts(),
                fresh,
            ) {
                Ok(v) => r is Ok && final(db)@ == v,
                Err(e) => r == Err::<Uuid, StoreError>(e) && final(db)@ == old(db)@,
            },
{
    let fresh = new_v4();
    let r = db.insert_entry(jot, device, fresh);
    assert(fresh@.len() == 16);
    r
}

} // verus!
