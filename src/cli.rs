//! What the command line hands over: the tags and the content of a new entry.
use vstd::prelude::*;

use crate::text::{
    canonical_tag, canonicalize_tag, chars_of, parse_tags, split_on, string_views,
    strictly_sorted, tag_set, trim, trim_of, lex_lt, lemma_lex_trichotomy,
};

verus! {

/// The canonical forms of the given tags that are not blank, each once, in
/// order of first appearance.
pub open spec fn given_tags(tags: Seq<Seq<char>>) -> Seq<Seq<char>>
    decreases tags.len(),
{
    if tags.len() == 0 {
        Seq::empty()
    } else {
        let g = given_tags(tags.drop_last());
        let c = canonical_tag(tags.last());
        if trim_of(tags.last()).len() > 0 && !g.contains(c) {
            g.push(c)
        } else {
            g
        }
    }
}

/// The tags of a typed tag line, if one was typed.
pub open spec fn typed_set(typed: Option<Seq<char>>) -> Set<Seq<char>> {
    match typed {
        Some(t) => tag_set(split_on(t, ',')),
        None => Set::empty(),
    }
}

/// No element occurs twice.
pub open spec fn no_repeats(s: Seq<Seq<char>>) -> bool {
    forall|i: int, j: int| 0 <= i < j < s.len() ==> s[i] != s[j]
}

pub open spec fn untagged() -> Seq<char> {
    "untagged"@
}

/// Whether `s` is among `v`.
fn contains_text(v: &Vec<String>, s: &String) -> (r: bool)
    ensures
        r == string_views(v@).contains(s@),
{
    let mut i: usize = 0;
    while i < v.len()
        invariant
            0 <= i <= v@.len(),
            forall|j: int| 0 <= j < i ==> v@[j]@ != s@,
        decreases v@.len() - i,
    {
        if v[i] == *s {
            assert(string_views(v@)[i as int] == s@);
            return true;
        }
        i = i + 1;
    }
    assert forall|j: int| 0 <= j < string_views(v@).len() implies string_views(v@)[j] != s@ by {
        assert(string_views(v@)[j] == v@[j]@);
    }
    false
}

/// The tags of a new entry, each once: the tags given one by one (canonical,
/// blank ones dropped) in order, then those of the typed tag line that were
/// not given, in increasing order; `untagged` alone where there are none.
pub fn collect_tags(cli_tags: &Vec<String>, typed: Option<&str>) -> (r: Vec<String>)
    ensures
        no_repeats(string_views(r@)),
        ({
            let g = given_tags(string_views(cli_tags@));
            let t = typed_set(
                match typed {
                    Some(s) => Some(s@),
                    None => None,
                },
            );
            if g.len() == 0 && t.is_empty() {
                string_views(r@) == seq![untagged()]
            } else {
                &&& r@.len() >= g.len()
                &&& string_views(r@).subrange(0, g.len() as int) == g
                &&& strictly_sorted(string_views(r@).subrange(g.len() as int, r@.len() as int))
                &&& string_views(r@).subrange(g.len() as int, r@.len() as int).to_set()
                    == t.difference(g.to_set())
            }
        }),
{
    let ghost cv = string_views(cli_tags@);
    let mut r: Vec<String> = Vec::new();
    let mut i: usize = 0;
    assert(cv.subrange(0, 0) =~= Seq::<Seq<char>>::empty());
    assert(string_views(r@) =~= Seq::<Seq<char>>::empty());
    while i < cli_tags.len()
        invariant
            0 <= i <= cli_tags@.len(),
            cv == string_views(cli_tags@),
            string_views(r@) == given_tags(cv.subrange(0, i as int)),
            no_repeats(string_views(r@)),
        decreases cli_tags@.len() - i,
    {
        assert(cv.subrange(0, i + 1).drop_last() =~= cv.subrange(0, i as int));
        assert(cv.subrange(0, i + 1).last() == cli_tags@[i as int]@);
        let t = trim(cli_tags[i].as_str());
        let tc = chars_of(t.as_str());
        if tc.len() > 0 {
            let c = canonicalize_tag(cli_tags[i].as_str());
            if !contains_text(&r, &c) {
                let ghost before = r@;
                r.push(c);
                assert(string_views(r@) =~= string_views(before).push(c@));
            }
        }
        i = i + 1;
    }
    assert(cv.subrange(0, cli_tags@.len() as int) =~= cv);
    let ghost g = string_views(r@);
    let ghost glen = r@.len();
    let typed_tags = match typed {
        Some(line) => parse_tags(line),
        None => Vec::new(),
    };
    let ghost tv = string_views(typed_tags@);
    let ghost t = typed_set(
        match typed {
            Some(s) => Some(s@),
            None => None,
        },
    );
    assert(tv.to_set() == t && strictly_sorted(tv)) by {
        if typed is None {
            assert(tv.to_set() =~= Set::<Seq<char>>::empty());
        }
    }
    let mut k: usize = 0;
    while k < typed_tags.len()
        invariant
            0 <= k <= typed_tags@.len(),
            tv == string_views(typed_tags@),
            strictly_sorted(tv),
            r@.len() >= glen,
            glen == g.len(),
            string_views(r@).subrange(0, glen as int) == g,
            no_repeats(string_views(r@)),
            strictly_sorted(string_views(r@).subrange(glen as int, r@.len() as int)),
            forall|x: int|
                glen <= x < r@.len() ==> exists|j: int|
                    0 <= j < k && #[trigger] string_views(r@)[x] == tv[j],
            forall|y: Seq<char>|
                #[trigger] string_views(r@).subrange(glen as int, r@.len() as int).contains(y) <==> (
                tv.subrange(0, k as int).contains(y) && !g.contains(y)),
        decreases typed_tags@.len() - k,
    {
        let ghost before = string_views(r@);
        let ghost tv1 = tv.subrange(0, k + 1);
        let ghost tv0 = tv.subrange(0, k as int);
        let ghost rest = before.subrange(glen as int, before.len() as int);
        let c = typed_tags[k].clone();
        assert(c@ == tv[k as int]);
        assert forall|x: int| glen <= x < before.len() implies lex_lt(#[trigger] before[x], c@) by {
            let j = choose|j: int| 0 <= j < k && before[x] == tv[j];
        }
        if !contains_text(&r, &c) {
            r.push(c);
            let ghost after = string_views(r@);
            assert(after =~= before.push(c@));
            assert(after.subrange(0, glen as int) =~= before.subrange(0, glen as int));
            assert(after.subrange(glen as int, after.len() as int) =~= rest.push(c@));
            assert forall|i2: int, j2: int| 0 <= i2 < j2 < after.len() implies after[i2] != after[j2] by {
                if j2 == after.len() - 1 && i2 < before.len() {
                    assert(before.contains(before[i2]));
                }
            }
            assert forall|i2: int, j2: int|
                0 <= i2 < j2 < rest.push(c@).len() implies lex_lt(
                #[trigger] rest.push(c@)[i2],
                #[trigger] rest.push(c@)[j2],
            ) by {
                if j2 == rest.len() {
                    assert(rest.push(c@)[i2] == before[glen + i2]);
                }
            }
            assert forall|x: int| glen <= x < after.len() implies exists|j: int|
                0 <= j < k + 1 && #[trigger] after[x] == tv[j] by {
                if x < before.len() {
                    let j = choose|j: int| 0 <= j < k && before[x] == tv[j];
                    assert(after[x] == tv[j]);
                } else {
                    assert(after[x] == tv[k as int]);
                }
            }
            assert(tv1 =~= tv0.push(c@));
            assert forall|y: Seq<char>| #[trigger] rest.push(c@).contains(y) <==> (tv1.contains(y) && !g.contains(y)) by {
                if y == c@ {
                    assert(rest.push(c@)[rest.len() as int] == y);
                    assert(tv1[k as int] == y);
                    if g.contains(y) {
                        let q = choose|q: int| 0 <= q < g.len() && g[q] == y;
                        assert(before[q] == y);
                    }
                } else {
                    if rest.push(c@).contains(y) {
                        let q = choose|q: int| 0 <= q < rest.push(c@).len() && rest.push(c@)[q] == y;
                        assert(rest[q] == y);
                    }
                    if tv1.contains(y) {
                        let q = choose|q: int| 0 <= q < k + 1 && tv1[q] == y;
                        assert(tv0[q] == y);
                    }
                    if rest.contains(y) {
                        let q = choose|q: int| 0 <= q < rest.len() && rest[q] == y;
                        assert(rest.push(c@)[q] == y);
                    }
                }
            }
        } else {
            proof {
                assert(tv1 =~= tv0.push(c@));
                let q = choose|q: int| 0 <= q < before.len() && before[q] == c@;
                assert(q < glen) by {
                    if q >= glen {
                        assert(lex_lt(before[q], c@));
                        lemma_lex_trichotomy(before[q], c@);
                    }
                }
                assert(g[q] == c@);
                assert forall|y: Seq<char>| #[trigger] rest.contains(y) <==> (tv1.contains(
                    y,
                ) && !g.contains(y)) by {
                    if tv1.contains(y) && y != c@ {
                        let q2 = choose|q2: int| 0 <= q2 < tv1.len() && tv1[q2] == y;
                        assert(tv0[q2] == y);
                    }
                    if tv0.contains(y) {
                        let q2 = choose|q2: int| 0 <= q2 < tv0.len() && tv0[q2] == y;
                        assert(tv1[q2] == y);
                    }
                }
                assert forall|x: int| glen <= x < r@.len() implies exists|j: int|
                    0 <= j < k + 1 && #[trigger] string_views(r@)[x] == tv[j] by {
                    let j = choose|j: int| 0 <= j < k && before[x] == tv[j];
                }
        
            }
        }
        k = k + 1;
    }
    let ghost rest = string_views(r@).subrange(glen as int, r@.len() as int);
    assert(tv.subrange(0, tv.len() as int) =~= tv);
    assert(rest.to_set() =~= t.difference(g.to_set())) by {
        assert forall|y: Seq<char>| rest.to_set().contains(y) <==> t.difference(g.to_set()).contains(y) by {
            assert(rest.contains(y) <==> (tv.contains(y) && !g.contains(y)));
            assert(tv.contains(y) <==> tv.to_set().contains(y));
        }
    }
    if r.len() == 0 {
        proof {
            assert(g.len() == 0);
            assert(rest.len() == 0);
            assert(t.is_empty()) by {
                assert forall|y: Seq<char>| !t.contains(y) by {
                    if t.contains(y) {
                        assert(t.difference(g.to_set()).contains(y));
                        assert(rest.to_set().contains(y));
                    }
                }
                assert(t =~= Set::<Seq<char>>::empty());
            }
        }
        let u = String::from_str("untagged");
        r.push(u);
        assert(string_views(r@) =~= seq![untagged()]);
    } else {
        proof {
            if g.len() == 0 {
                assert(rest.len() > 0);
                assert(rest.to_set().contains(rest[0]));
                assert(t.contains(rest[0]));
            }
        }
    }
    r
}

/// The content of a new entry: the typed text, trimmed; with a message, the
/// trimmed message, a blank line, and the trimmed text, all trimmed again.
pub open spec fn composed_content(message: Option<Seq<char>>, typed: Seq<char>) -> Seq<char> {
    match message {
        Some(m) => trim_of(trim_of(m) + "\n\n"@ + trim_of(typed)),
        None => trim_of(typed),
    }
}

/// Puts together the content of a new entry.
pub fn compose_content(message: Option<&str>, typed: &str) -> (r: String)
    ensures
        r@ == composed_content(
            match message {
                Some(m) => Some(m@),
                None => None,
            },
            typed@,
        ),
{
    match message {
        Some(m) => {
            let head = trim(m);
            let body = trim(typed);
            let joined = head.concat("\n\n").concat(body.as_str());
            trim(joined.as_str())
        },
        None => trim(typed),
    }
}

} // verus!
