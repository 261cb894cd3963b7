//! What holds across calls: determinism of the derived ids, canonical tags,
//! score consistency, duplicate entries and unique mappings.
use vstd::prelude::*;

use crate::ids::{device_root, jot_id_of, mapping_id_of, tag_id_of};
use crate::stardate::StarDate;
use crate::store::{
    apply_entry, apply_tag, apply_tags, count_refs, identity_of, jot_row, lemma_apply_tag_wf,
    lemma_apply_tags_wf, lemma_count_push, lemma_count_zero, lemma_push_jot_wf, DbView,
    StoreError,
};
use crate::text::canonical_tag;
use vstd::utf8::{decode_utf8, encode_utf8_decode_utf8, encode_utf8_valid_utf8, valid_utf8};

verus! {

/// A jot's id is a function of the device root, the content and the date:
/// equal inputs give equal ids.
pub proof fn lemma_jot_id_deterministic(
    root: Seq<u8>,
    content1: Seq<char>,
    date1: StarDate,
    content2: Seq<char>,
    date2: StarDate,
)
    requires
        content1 == content2,
        date1 == date2,
    ensures
        jot_id_of(root, content1, date1) == jot_id_of(root, content2, date2),
{
}

/// Two tag texts with the same canonical form (trimmed, lower-cased) have the
/// same tag id.
pub proof fn lemma_tag_id_canonical(s: Seq<char>, t: Seq<char>)
    requires
        canonical_tag(s) == canonical_tag(t),
    ensures
        tag_id_of(s) == tag_id_of(t),
{
}

/// A mapping's id is a function of the jot id and the tag id.
pub proof fn lemma_mapping_id_deterministic(jot1: Seq<u8>, tag1: Seq<u8>, jot2: Seq<u8>, tag2: Seq<u8>)
    requires
        jot1 == jot2,
        tag1 == tag2,
    ensures
        mapping_id_of(jot1, tag1) == mapping_id_of(jot2, tag2),
{
}

/// How many of `texts` have tag id `tid`.
pub open spec fn occurrences(texts: Seq<Seq<char>>, tid: Seq<u8>) -> nat
    decreases texts.len(),
{
    if texts.len() == 0 {
        0
    } else {
        occurrences(texts.drop_last(), tid) + if tag_id_of(texts.last()) == tid {
            1nat
        } else {
            0nat
        }
    }
}

/// A run of tags adds to each tag's mapping count the number of its uses.
proof fn lemma_apply_tags_count(
    db: DbView,
    jot_id: Seq<u8>,
    texts: Seq<Seq<char>>,
    date: StarDate,
    device: Seq<u8>,
    tid: Seq<u8>,
)
    requires
        db.wf(),
        db.has_jot(jot_id),
    ensures
        apply_tags(db, jot_id, texts, date, device) matches Ok(v) ==> count_refs(v.mappings, tid)
            == count_refs(db.mappings, tid) + occurrences(texts, tid),
    decreases texts.len(),
{
    if texts.len() > 0 {
        lemma_apply_tags_count(db, jot_id, texts.drop_last(), date, device, tid);
        lemma_apply_tags_wf(db, jot_id, texts.drop_last(), date, device);
        if let Ok(d) = apply_tags(db, jot_id, texts.drop_last(), date, device) {
            lemma_apply_tag_wf(d, jot_id, texts.last(), date, device);
            if let Ok(v) = apply_tag(d, jot_id, texts.last(), date, device) {
                lemma_count_push(d.mappings, v.mappings.last(), tid);
            }
        }
    }
}

/// An insertion that succeeds adds to each tag's mapping count the number of
/// the entry's tags with that id.
pub proof fn lemma_apply_entry_count(
    db: DbView,
    device: Seq<u8>,
    content: Seq<char>,
    date: StarDate,
    texts: Seq<Seq<char>>,
    fresh: Seq<u8>,
    tid: Seq<u8>,
)
    requires
        db.wf(),
    ensures
        apply_entry(db, device, content, date, texts, fresh) matches Ok(v) ==> {
            &&& v.wf()
            &&& count_refs(v.mappings, tid) == count_refs(db.mappings, tid) + occurrences(texts, tid)
            &&& v.jots.len() == db.jots.len() + 1
            &&& v.jots.subrange(0, db.jots.len() as int) == db.jots
        },
{
    let derived = jot_id_of(device_root(device), content, date);
    let (id, dup) = identity_of(derived, db.has_jot(derived), fresh);
    if !db.has_jot(id) {
        let row = jot_row(id, dup, content, date, device);
        lemma_push_jot_wf(db, row);
        let d = DbView { jots: db.jots.push(row), tags: db.tags, mappings: db.mappings };
        lemma_apply_tags_wf(d, id, texts, date, device);
        lemma_apply_tags_count(d, id, texts, date, device, tid);
        assert(d.jots.subrange(0, db.jots.len() as int) =~= db.jots);
    }
}

/// In well-formed tables a tag without a row has no mapping.
pub proof fn lemma_unused_tag_uncounted(db: DbView, tid: Seq<u8>)
    requires
        db.wf(),
        !db.has_tag(tid),
    ensures
        count_refs(db.mappings, tid) == 0,
{
    assert forall|i: int| 0 <= i < db.mappings.len() implies (#[trigger] db.mappings[i]).tag_id
        != tid by {
        assert(db.has_tag(db.mappings[i].tag_id));
    }
    lemma_count_zero(db.mappings, tid);
}

/// In well-formed tables a tag's score, where it has one, is the number of
/// mappings that refer to it, and a tag that some mapping refers to has a score.
pub proof fn lemma_score_is_count(db: DbView, tid: Seq<u8>)
    requires
        db.wf(),
    ensures
        db.score_of(tid) matches Some(s) ==> s == count_refs(db.mappings, tid),
        count_refs(db.mappings, tid) > 0 ==> db.score_of(tid) is Some,
{
    if !db.has_tag(tid) {
        lemma_unused_tag_uncounted(db, tid);
    } else {
        let k = db.tag_index(tid);
        assert(db.tags[k].score == count_refs(db.mappings, db.tags[k].tag_id));
    }
}

/// Starting from tables in which tag `x` has never been used, after `n`
/// successful insertions of entries that each name `x` exactly once, the
/// score of `x` is `n` (and it has no row while `n` is 0).
pub proof fn lemma_score_consistency(
    states: Seq<DbView>,
    device: Seq<u8>,
    contents: Seq<Seq<char>>,
    dates: Seq<StarDate>,
    tag_lists: Seq<Seq<Seq<char>>>,
    freshes: Seq<Seq<u8>>,
    x: Seq<char>,
)
    requires
        states.len() == contents.len() + 1,
        dates.len() == contents.len(),
        tag_lists.len() == contents.len(),
        freshes.len() == contents.len(),
        states[0].wf(),
        states[0].score_of(tag_id_of(x)) is None,
        forall|i: int|
            0 <= i < contents.len() ==> apply_entry(
                #[trigger] states[i],
                device,
                contents[i],
                dates[i],
                tag_lists[i],
                freshes[i],
            ) == Ok::<DbView, StoreError>(states[i + 1]),
        forall|i: int| 0 <= i < contents.len() ==> occurrences(#[trigger] tag_lists[i], tag_id_of(x)) == 1,
    ensures
        contents.len() > 0 ==> states.last().score_of(tag_id_of(x)) == Some(contents.len() as int),
        contents.len() == 0 ==> states.last().score_of(tag_id_of(x)) is None,
{
    let tid = tag_id_of(x);
    let n = contents.len() as int;
    lemma_unused_tag_uncounted(states[0], tid);
    assert forall|i: int| 0 <= i <= n implies (#[trigger] states[i]).wf() && count_refs(
        states[i].mappings,
        tid,
    ) == i by {
        lemma_states_count(states, device, contents, dates, tag_lists, freshes, tid, i);
    }
    lemma_score_is_count(states[n], tid);
}

/// The first `i` insertions of a run keep the tables well formed and add `i`
/// mappings to tag `tid`.
proof fn lemma_states_count(
    states: Seq<DbView>,
    device: Seq<u8>,
    contents: Seq<Seq<char>>,
    dates: Seq<StarDate>,
    tag_lists: Seq<Seq<Seq<char>>>,
    freshes: Seq<Seq<u8>>,
    tid: Seq<u8>,
    i: int,
)
    requires
        0 <= i < states.len(),
        states.len() == contents.len() + 1,
        dates.len() == contents.len(),
        tag_lists.len() == contents.len(),
        freshes.len() == contents.len(),
        states[0].wf(),
        count_refs(states[0].mappings, tid) == 0,
        forall|j: int|
            0 <= j < contents.len() ==> apply_entry(
                #[trigger] states[j],
                device,
                contents[j],
                dates[j],
                tag_lists[j],
                freshes[j],
            ) == Ok::<DbView, StoreError>(states[j + 1]),
        forall|j: int| 0 <= j < contents.len() ==> occurrences(#[trigger] tag_lists[j], tid) == 1,
    ensures
        states[i].wf(),
        count_refs(states[i].mappings, tid) == i,
    decreases i,
{
    if i > 0 {
        lemma_states_count(states, device, contents, dates, tag_lists, freshes, tid, i - 1);
        let j = i - 1;
        assert(apply_entry(states[j], device, contents[j], dates[j], tag_lists[j], freshes[j])
            == Ok::<DbView, StoreError>(states[j + 1]));
        assert(occurrences(tag_lists[j], tid) == 1);
        lemma_apply_entry_count(states[j], device, contents[j], dates[j], tag_lists[j], freshes[j], tid);
    }
}

/// Two insertions of entries with the same content and date: where the first
/// stores its row under the derived id, the second stores a row of its own
/// whose duplicate marker is the first row's id and whose id differs from it.
pub proof fn lemma_duplicate_entry(
    db0: DbView,
    db1: DbView,
    db2: DbView,
    device: Seq<u8>,
    content: Seq<char>,
    date: StarDate,
    texts1: Seq<Seq<char>>,
    texts2: Seq<Seq<char>>,
    fresh1: Seq<u8>,
    fresh2: Seq<u8>,
)
    requires
        db0.wf(),
        !db0.has_jot(jot_id_of(device_root(device), content, date)),
        apply_entry(db0, device, content, date, texts1, fresh1) == Ok::<DbView, StoreError>(db1),
        apply_entry(db1, device, content, date, texts2, fresh2) == Ok::<DbView, StoreError>(db2),
    ensures
        db1.jots.len() == db0.jots.len() + 1,
        db2.jots.len() == db1.jots.len() + 1,
        db2.jots[db1.jots.len() - 1] == db1.jots.last(),
        db1.jots.last().jot_id == jot_id_of(device_root(device), content, date),
        db1.jots.last().dup_id is None,
        db2.jots.last().dup_id == Some(db1.jots.last().jot_id),
        db2.jots.last().jot_id != db1.jots.last().jot_id,
        db2.mappings.len() >= db1.mappings.len(),
        db2.mappings.subrange(0, db1.mappings.len() as int) == db1.mappings,
        forall|i: int|
            db1.mappings.len() <= i < db2.mappings.len() ==> (#[trigger] db2.mappings[i]).jot_id
                == db2.jots.last().jot_id,
{
    let derived = jot_id_of(device_root(device), content, date);
    let row1 = jot_row(derived, None, content, date, device);
    lemma_push_jot_wf(db0, row1);
    let d0 = DbView { jots: db0.jots.push(row1), tags: db0.tags, mappings: db0.mappings };
    lemma_apply_tags_wf(d0, derived, texts1, date, device);
    assert(db1.jots == d0.jots);
    assert(db1.jots.last() == row1);
    lemma_apply_entry_count(db0, device, content, date, texts1, fresh1, derived);
    assert(db1.has_jot(derived)) by {
        assert(db1.jots[db1.jots.len() - 1].jot_id == derived);
    }
    let row2 = jot_row(fresh2, Some(derived), content, date, device);
    assert(!db1.has_jot(fresh2));
    lemma_push_jot_wf(db1, row2);
    let d1 = DbView { jots: db1.jots.push(row2), tags: db1.tags, mappings: db1.mappings };
    lemma_apply_tags_wf(d1, fresh2, texts2, date, device);
    assert(db2.jots == d1.jots);
    assert(fresh2 != derived) by {
        assert(db1.jots[db1.jots.len() - 1].jot_id == derived);
    }
}

/// Mapping ids in well-formed tables are unique, no two mappings link the same
/// jot and tag, and the mapping that one tag step adds cannot be added a
/// second time.
pub proof fn lemma_mapping_once(
    db: DbView,
    jot_id: Seq<u8>,
    text: Seq<char>,
    date: StarDate,
    device: Seq<u8>,
    date2: StarDate,
    device2: Seq<u8>,
)
    requires
        db.wf(),
        db.has_jot(jot_id),
    ensures
        forall|i: int, j: int|
            0 <= i < db.mappings.len() && 0 <= j < db.mappings.len() && i != j
                ==> db.mappings[i].mapping_id != db.mappings[j].mapping_id,
        forall|i: int, j: int|
            0 <= i < db.mappings.len() && 0 <= j < db.mappings.len() && i != j ==> (
            #[trigger] db.mappings[i]).jot_id != (#[trigger] db.mappings[j]).jot_id
                || db.mappings[i].tag_id != db.mappings[j].tag_id,
        apply_tag(db, jot_id, text, date, device) matches Ok(v) ==> {
            &&& v.has_mapping(mapping_id_of(jot_id, tag_id_of(text)))
            &&& apply_tag(v, jot_id, text, date2, device2) is Err
        },
{
    assert forall|i: int, j: int|
        0 <= i < db.mappings.len() && 0 <= j < db.mappings.len() && i != j implies (
        #[trigger] db.mappings[i]).jot_id != (#[trigger] db.mappings[j]).jot_id
            || db.mappings[i].tag_id != db.mappings[j].tag_id by {
        assert(db.mappings[i].mapping_id != db.mappings[j].mapping_id);
    }
    if let Ok(v) = apply_tag(db, jot_id, text, date, device) {
        lemma_apply_tag_wf(db, jot_id, text, date, device);
        assert(v.mappings[v.mappings.len() - 1].mapping_id == mapping_id_of(jot_id, tag_id_of(text)));
    }
}

/// The content of a jot row that an insertion writes is valid UTF-8 and
/// reads back as the entry's text, so such a row has a text form and a label.
pub proof fn lemma_written_content_reads_back(
    id: Seq<u8>,
    dup: Option<Seq<u8>>,
    content: Seq<char>,
    date: StarDate,
    device: Seq<u8>,
)
    ensures
        valid_utf8(jot_row(id, dup, content, date, device).content),
        decode_utf8(jot_row(id, dup, content, date, device).content) == content,
{
    encode_utf8_valid_utf8(content);
    encode_utf8_decode_utf8(content);
}

} // verus!
