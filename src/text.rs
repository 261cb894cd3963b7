//! Canonical tag text and the splitting of a comma-separated tag line.
use vstd::prelude::*;

verus! {

/// What a string reads as with leading and trailing white space removed.
pub uninterp spec fn trim_of(s: Seq<char>) -> Seq<char>;

/// What a string reads as in lower case.
pub uninterp spec fn lower_of(s: Seq<char>) -> Seq<char>;

/// `p` is a contiguous piece of `s`.
pub open spec fn is_piece_of(p: Seq<char>, s: Seq<char>) -> bool {
    exists|i: int, j: int| 0 <= i <= j <= s.len() && p == s.subrange(i, j)
}

/// Relies on str::trim: the result depends on the characters alone, and is a
/// contiguous piece of the input.
#[verifier::external_body]
pub(crate) fn trim(s: &str) -> (r: String)
    ensures
        r@ == trim_of(s@),
        is_piece_of(r@, s@),
{
    s.trim().to_owned()
}

/// Relies on str::to_lowercase: the result depends on the characters alone,
/// and the empty string stays empty.
#[verifier::external_body]
pub(crate) fn lowercase(s: &str) -> (r: String)
    ensures
        r@ == lower_of(s@),
        s@.len() == 0 ==> r@.len() == 0,
{
    s.to_lowercase()
}

/// The canonical form of a tag: trimmed, then lower-cased.
pub open spec fn canonical_tag(s: Seq<char>) -> Seq<char> {
    lower_of(trim_of(s))
}

/// Trims and lower-cases a tag.
pub fn canonicalize_tag(tag: &str) -> (r: String)
    ensures
        r@ == canonical_tag(tag@),
{
    let t = trim(tag);
    lowercase(t.as_str())
}

/// Relies on str::chars, collected: the characters of the string in order.
#[verifier::external_body]
pub(crate) fn chars_of(s: &str) -> (r: Vec<char>)
    ensures
        r@ == s@,
{
    s.chars().collect()
}

/// Relies on String's FromIterator<&char>: the string of the characters in order.
#[verifier::external_body]
pub(crate) fn string_of(cs: &[char]) -> (r: String)
    ensures
        r@ == cs@,
{
    cs.iter().collect()
}

/// The pieces of `s` between occurrences of `sep`; there is always at least one.
pub open spec fn split_on(s: Seq<char>, sep: char) -> Seq<Seq<char>>
    decreases s.len(),
{
    if s.len() == 0 {
        seq![Seq::<char>::empty()]
    } else {
        let r = split_on(s.drop_last(), sep);
        if s.last() == sep {
            r.push(Seq::<char>::empty())
        } else {
            r.update(r.len() - 1, r.last().push(s.last()))
        }
    }
}

/// The canonical tags of the pieces whose trimmed text is not empty.
pub open spec fn tag_set(pieces: Seq<Seq<char>>) -> Set<Seq<char>>
    decreases pieces.len(),
{
    if pieces.len() == 0 {
        Set::empty()
    } else {
        let rest = tag_set(pieces.drop_last());
        if trim_of(pieces.last()).len() > 0 {
            rest.insert(canonical_tag(pieces.last()))
        } else {
            rest
        }
    }
}

/// Lexicographic order of character sequences by code point, the order of
/// `String` (UTF-8 keeps the order of code points).
pub open spec fn lex_lt(a: Seq<char>, b: Seq<char>) -> bool
    decreases a.len(),
{
    if a.len() == 0 {
        b.len() > 0
    } else if b.len() == 0 {
        false
    } else if a[0] != b[0] {
        (a[0] as int) < (b[0] as int)
    } else {
        lex_lt(a.drop_first(), b.drop_first())
    }
}

/// Exactly one of `a < b`, `a == b`, `b < a` holds.
pub proof fn lemma_lex_trichotomy(a: Seq<char>, b: Seq<char>)
    ensures
        lex_lt(a, b) || a == b || lex_lt(b, a),
        !(lex_lt(a, b) && lex_lt(b, a)),
        !(lex_lt(a, b) && a == b),
    decreases a.len(),
{
    if a.len() > 0 && b.len() > 0 {
        if a[0] == b[0] {
            lemma_lex_trichotomy(a.drop_first(), b.drop_first());
            if a.drop_first() == b.drop_first() {
                assert(a =~= seq![a[0]] + a.drop_first());
                assert(b =~= seq![b[0]] + b.drop_first());
            }
        }
    } else if a.len() == 0 && b.len() == 0 {
        assert(a =~= b);
    }
}

pub proof fn lemma_lex_transitive(a: Seq<char>, b: Seq<char>, c: Seq<char>)
    requires
        lex_lt(a, b),
        lex_lt(b, c),
    ensures
        lex_lt(a, c),
    decreases a.len(),
{
    if a.len() > 0 && b.len() > 0 && c.len() > 0 && a[0] == b[0] && b[0] == c[0] {
        lemma_lex_transitive(a.drop_first(), b.drop_first(), c.drop_first());
    }
}

/// Strictly increasing in lexicographic order.
pub open spec fn strictly_sorted(s: Seq<Seq<char>>) -> bool {
    forall|i: int, j: int| 0 <= i < j < s.len() ==> lex_lt(#[trigger] s[i], #[trigger] s[j])
}

/// `a < b` in lexicographic order.
fn lex_less(a: &Vec<char>, b: &Vec<char>) -> (r: bool)
    ensures
        r == lex_lt(a@, b@),
{
    let mut i: usize = 0;
    assert(a@.subrange(0, a@.len() as int) =~= a@);
    assert(b@.subrange(0, b@.len() as int) =~= b@);
    while i < a.len() && i < b.len()
        invariant
            0 <= i <= a@.len(),
            i <= b@.len(),
            a@.subrange(0, i as int) == b@.subrange(0, i as int),
            lex_lt(a@, b@) == lex_lt(a@.subrange(i as int, a@.len() as int), b@.subrange(i as int, b@.len() as int)),
        decreases a@.len() - i,
    {
        let x = a[i];
        let y = b[i];
        let ghost sa = a@.subrange(i as int, a@.len() as int);
        let ghost sb = b@.subrange(i as int, b@.len() as int);
        assert(sa[0] == x && sb[0] == y);
        if x != y {
            return x < y;
        }
        assert(sa.drop_first() =~= a@.subrange(i + 1, a@.len() as int));
        assert(sb.drop_first() =~= b@.subrange(i + 1, b@.len() as int));
        assert(a@.subrange(0, i + 1) =~= a@.subrange(0, i as int).push(x));
        assert(b@.subrange(0, i + 1) =~= b@.subrange(0, i as int).push(y));
        i = i + 1;
    }
    i < b.len()
}

/// The views of a sequence of character vectors.
pub open spec fn char_views(s: Seq<Vec<char>>) -> Seq<Seq<char>> {
    s.map_values(|v: Vec<char>| v@)
}

/// The views of a sequence of strings.
pub open spec fn string_views(s: Seq<String>) -> Seq<Seq<char>> {
    s.map_values(|t: String| t@)
}

/// Inserts `x` into a strictly sorted sequence unless it is there already.
fn insert_sorted(out: &mut Vec<Vec<char>>, x: Vec<char>)
    requires
        strictly_sorted(char_views(old(out)@)),
    ensures
        strictly_sorted(char_views(final(out)@)),
        char_views(final(out)@).to_set() == char_views(old(out)@).to_set().insert(x@),
{
    let ghost old_views = char_views(out@);
    let mut p: usize = 0;
    while p < out.len()
        invariant
            0 <= p <= out@.len(),
            char_views(out@) == old_views,
            forall|i: int| 0 <= i < p ==> lex_lt(#[trigger] old_views[i], x@),
        ensures
            0 <= p <= out@.len(),
            char_views(out@) == old_views,
            forall|i: int| 0 <= i < p ==> lex_lt(#[trigger] old_views[i], x@),
            p == out@.len() || !lex_lt(old_views[p as int], x@),
        decreases out@.len() - p,
    {
        if !lex_less(&out[p], &x) {
            break;
        }
        p = p + 1;
    }
    if p < out.len() {
        proof {
            lemma_lex_trichotomy(old_views[p as int], x@);
        }
        if !lex_less(&x, &out[p]) {
            // x is already there
            assert(old_views[p as int] == x@);
            assert(old_views.to_set().insert(x@) =~= old_views.to_set()) by {
                assert(old_views.to_set().contains(x@));
            }
            return;
        }
    }
    out.insert(p, x);
    let ghost new_views = char_views(out@);
    assert(new_views =~= old_views.insert(p as int, x@));
    assert forall|i: int, j: int| 0 <= i < j < new_views.len() implies lex_lt(
        #[trigger] new_views[i],
        #[trigger] new_views[j],
    ) by {
        if j < p {
        } else if j == p {
        } else if i < p {
            assert(lex_lt(old_views[i], x@));
            assert(lex_lt(x@, old_views[p as int]));
            if j - 1 > p {
                lemma_lex_transitive(x@, old_views[p as int], old_views[j - 1]);
            }
            lemma_lex_transitive(old_views[i], x@, old_views[j - 1]);
        } else if i == p {
            assert(lex_lt(x@, old_views[p as int]));
            if j - 1 > p {
                lemma_lex_transitive(x@, old_views[p as int], old_views[j - 1]);
            }
        } else {
        }
    }
    assert(new_views.to_set() =~= old_views.to_set().insert(x@)) by {
        assert forall|t: Seq<char>| new_views.to_set().contains(t) implies old_views.to_set().insert(x@).contains(t) by {
            let k = choose|k: int| 0 <= k < new_views.len() && new_views[k] == t;
            if k < p {
                assert(old_views[k] == t);
            } else if k > p {
                assert(old_views[k - 1] == t);
            }
        }
        assert forall|t: Seq<char>| old_views.to_set().insert(x@).contains(t) implies new_views.to_set().contains(t) by {
            if t == x@ {
                assert(new_views[p as int] == t);
            } else {
                let k = choose|k: int| 0 <= k < old_views.len() && old_views[k] == t;
                if k < p {
                    assert(new_views[k] == t);
                } else {
                    assert(new_views[k + 1] == t);
                }
            }
        }
    }
}

/// Adds the canonical form of one piece of a tag line, unless it is blank.
fn add_piece(out: &mut Vec<Vec<char>>, piece: &Vec<char>)
    requires
        strictly_sorted(char_views(old(out)@)),
    ensures
        strictly_sorted(char_views(final(out)@)),
        char_views(final(out)@).to_set() == if trim_of(piece@).len() > 0 {
            char_views(old(out)@).to_set().insert(canonical_tag(piece@))
        } else {
            char_views(old(out)@).to_set()
        },
{
    let s = string_of(piece.as_slice());
    let t = trim(s.as_str());
    let tc = chars_of(t.as_str());
    if tc.len() > 0 {
        let l = lowercase(t.as_str());
        let lc = chars_of(l.as_str());
        insert_sorted(out, lc);
    }
}

/// The tags of a comma-separated tag line: each piece trimmed, blank pieces
/// dropped, lower-cased, without repeats and in increasing order.
pub fn parse_tags(tagline: &str) -> (r: Vec<String>)
    ensures
        strictly_sorted(string_views(r@)),
        string_views(r@).to_set() == tag_set(split_on(tagline@, ',')),
{
    let cs = chars_of(tagline);
    let mut out: Vec<Vec<char>> = Vec::new();
    let mut cur: Vec<char> = Vec::new();
    let mut i: usize = 0;
    assert(cs@.subrange(0, 0) =~= Seq::<char>::empty());
    assert(char_views(out@).to_set() =~= Set::<Seq<char>>::empty());
    assert(cur@ =~= Seq::<char>::empty());
    while i < cs.len()
        invariant
            0 <= i <= cs@.len(),
            cs@ == tagline@,
            strictly_sorted(char_views(out@)),
            split_on(cs@.subrange(0, i as int), ',').len() >= 1,
            split_on(cs@.subrange(0, i as int), ',').last() == cur@,
            char_views(out@).to_set() == tag_set(split_on(cs@.subrange(0, i as int), ',').drop_last()),
        decreases cs@.len() - i,
    {
        let c = cs[i];
        let ghost pre = cs@.subrange(0, i as int);
        let ghost sp = split_on(pre, ',');
        assert(cs@.subrange(0, i + 1).drop_last() =~= pre);
        assert(cs@.subrange(0, i + 1).last() == c);
        if c == ',' {
            add_piece(&mut out, &cur);
            cur = Vec::new();
            assert(split_on(cs@.subrange(0, i + 1), ',') == sp.push(Seq::<char>::empty()));
            assert(sp.push(Seq::<char>::empty()).drop_last() =~= sp);
            assert(sp =~= sp.drop_last().push(sp.last()));
            assert(sp.drop_last() =~= sp.subrange(0, sp.len() - 1));
            assert(cur@ =~= Seq::<char>::empty());
        } else {
            cur.push(c);
            let ghost sp2 = split_on(cs@.subrange(0, i + 1), ',');
            assert(sp2 == sp.update(sp.len() - 1, sp.last().push(c)));
            assert(sp2.drop_last() =~= sp.drop_last());
        }
        i = i + 1;
    }
    let ghost sp = split_on(cs@, ',');
    assert(cs@.subrange(0, cs@.len() as int) =~= cs@);
    add_piece(&mut out, &cur);
    assert(sp =~= sp.drop_last().push(sp.last()));
    assert(sp.drop_last() =~= sp.subrange(0, sp.len() - 1));
    let mut r: Vec<String> = Vec::new();
    let mut k: usize = 0;
    while k < out.len()
        invariant
            0 <= k <= out@.len(),
            r@.len() == k,
            forall|j: int| 0 <= j < k ==> (#[trigger] r@[j])@ == out@[j]@,
        decreases out@.len() - k,
    {
        r.push(string_of(out[k].as_slice()));
        k = k + 1;
    }
    assert(string_views(r@) =~= char_views(out@));
    r
}

} // verus!
