use vstd::prelude::*;

use crate::stages::{texts, Stage};
use vstd::utf8::encode_utf8;

verus! {

/// Byte-wise lexicographic order, the order of `str`'s comparison.
pub open spec fn lex_le(a: Seq<u8>, b: Seq<u8>) -> bool
    decreases a.len(),
{
    if a.len() == 0 {
        true
    } else if b.len() == 0 {
        false
    } else if a[0] != b[0] {
        a[0] < b[0]
    } else {
        lex_le(a.drop_first(), b.drop_first())
    }
}

/// Any two byte strings are ordered one way or the other.
pub proof fn lemma_lex_total(a: Seq<u8>, b: Seq<u8>)
    ensures
        lex_le(a, b) || lex_le(b, a),
    decreases a.len(),
{
    if a.len() > 0 && b.len() > 0 && a[0] == b[0] {
        lemma_lex_total(a.drop_first(), b.drop_first());
    }
}

/// The byte-wise order is transitive.
pub proof fn lemma_lex_transitive(a: Seq<u8>, b: Seq<u8>, c: Seq<u8>)
    requires
        lex_le(a, b),
        lex_le(b, c),
    ensures
        lex_le(a, c),
    decreases a.len(),
{
    if a.len() > 0 && b.len() > 0 && c.len() > 0 && a[0] == b[0] && b[0] == c[0] {
        lemma_lex_transitive(a.drop_first(), b.drop_first(), c.drop_first());
    }
}

/// Compares two byte strings in byte-wise lexicographic order.
pub fn bytes_le(a: &[u8], b: &[u8]) -> (r: bool)
    ensures
        r == lex_le(a@, b@),
{
    let mut i: usize = 0;
    assert(a@.skip(0) =~= a@ && b@.skip(0) =~= b@);
    while i < a.len() && i < b.len()
        invariant
            i <= a@.len(),
            i <= b@.len(),
            lex_le(a@, b@) == lex_le(a@.skip(i as int), b@.skip(i as int)),
        decreases a@.len() - i,
    {
        assert(a@.skip(i as int)[0] == a@[i as int]);
        assert(b@.skip(i as int)[0] == b@[i as int]);
        if a[i] != b[i] {
            return a[i] < b[i];
        }
        assert(a@.skip(i as int).drop_first() =~= a@.skip(i + 1));
        assert(b@.skip(i as int).drop_first() =~= b@.skip(i + 1));
        i = i + 1;
    }
    i == a.len()
}

/// Whether `v` holds a string equal to `s`.
pub fn contains_text(v: &Vec<String>, s: &String) -> (r: bool)
    ensures
        r == texts(v@).contains(s@),
{
    let mut i: usize = 0;
    while i < v.len()
        invariant
            i <= v@.len(),
            forall|k: int| 0 <= k < i ==> v@[k]@ != s@,
        decreases v@.len() - i,
    {
        if v[i] == *s {
            assert(texts(v@)[i as int] == s@);
            return true;
        }
        i = i + 1;
    }
    assert(!texts(v@).contains(s@)) by {
        if texts(v@).contains(s@) {
            let k = choose|k: int| 0 <= k < texts(v@).len() && texts(v@)[k] == s@;
            assert(v@[k]@ == s@);
        }
    }
    false
}

/// Whether a stage with tags `tags` is chosen: it carries at least one of the
/// included tags and none of the excluded ones.
pub open spec fn chosen(tags: Seq<Seq<char>>, included: Seq<Seq<char>>, excluded: Seq<Seq<char>>) -> bool {
    (exists|t: Seq<char>| included.contains(t) && tags.contains(t)) && (forall|t: Seq<char>|
        excluded.contains(t) ==> !tags.contains(t))
}

/// Whether `tags` holds one of `wanted`.
fn has_any(tags: &Vec<String>, wanted: &Vec<String>) -> (r: bool)
    ensures
        r == (exists|t: Seq<char>| texts(wanted@).contains(t) && texts(tags@).contains(t)),
{
    let mut i: usize = 0;
    while i < wanted.len()
        invariant
            i <= wanted@.len(),
            forall|k: int| 0 <= k < i ==> !texts(tags@).contains(#[trigger] wanted@[k]@),
        decreases wanted@.len() - i,
    {
        if contains_text(tags, &wanted[i]) {
            assert(texts(wanted@)[i as int] == wanted@[i as int]@);
            return true;
        }
        i = i + 1;
    }
    assert(!(exists|t: Seq<char>| texts(wanted@).contains(t) && texts(tags@).contains(t))) by {
        if exists|t: Seq<char>| texts(wanted@).contains(t) && texts(tags@).contains(t) {
            let t = choose|t: Seq<char>| texts(wanted@).contains(t) && texts(tags@).contains(t);
            let k = choose|k: int| 0 <= k < texts(wanted@).len() && texts(wanted@)[k] == t;
            assert(wanted@[k]@ == t);
        }
    }
    false
}

/// Whether `stage` is chosen by the included and excluded tags.
pub fn is_chosen(stage: &Stage, included: &Vec<String>, excluded: &Vec<String>) -> (r: bool)
    ensures
        r == chosen(texts(stage.tags@), texts(included@), texts(excluded@)),
{
    if !has_any(&stage.tags, included) {
        return false;
    }
    !has_any(&stage.tags, excluded)
}

/// The bytes of a stage's title.
pub open spec fn title_bytes(stage: Stage) -> Seq<u8> {
    encode_utf8(stage.title@)
}

/// Whether the stages at indices `idx` are in order of their titles.
pub open spec fn sorted_by_title(stages: Seq<Stage>, idx: Seq<usize>) -> bool {
    forall|p: int, q: int|
        0 <= p < q < idx.len() ==> lex_le(
            title_bytes(#[trigger] stages[idx[p] as int]),
            title_bytes(#[trigger] stages[idx[q] as int]),
        )
}

/// Whether stages of equal titles stand at `idx` in their original order.
pub open spec fn stable_by_title(stages: Seq<Stage>, idx: Seq<usize>) -> bool {
    forall|p: int, q: int|
        0 <= p < q < idx.len() && (#[trigger] stages[idx[p] as int]).title@
            == (#[trigger] stages[idx[q] as int]).title@ ==> idx[p] < idx[q]
}

/// The stages to write, as indices into `stages`: those that carry an
/// included tag and no excluded tag, each once, in order of their titles,
/// equal titles in their original order.
pub fn filtered_stages(stages: &Vec<Stage>, included: &Vec<String>, excluded: &Vec<String>) -> (r: Vec<usize>)
    ensures
        r@.no_duplicates(),
        forall|k: usize|
            r@.contains(k) <==> (k < stages@.len() && chosen(
                texts(stages@[k as int].tags@),
                texts(included@),
                texts(excluded@),
            )),
        sorted_by_title(stages@, r@),
        stable_by_title(stages@, r@),
{
    let mut out: Vec<usize> = Vec::new();
    let mut j: usize = 0;
    while j < stages.len()
        invariant
            j <= stages@.len(),
            out@.no_duplicates(),
            forall|k: usize|
                out@.contains(k) <==> (k < j && chosen(
                    texts(stages@[k as int].tags@),
                    texts(included@),
                    texts(excluded@),
                )),
            sorted_by_title(stages@, out@),
            stable_by_title(stages@, out@),
        decreases stages@.len() - j,
    {
        if is_chosen(&stages[j], included, excluded) {
            let key = stages[j].title.as_str().as_bytes();
            let mut p: usize = 0;
            assert forall|q: int| 0 <= q < out@.len() implies out@[q] < j by {
                assert(out@.contains(out@[q]));
            }
            while p < out.len() && bytes_le(stages[out[p]].title.as_str().as_bytes(), key)
                invariant
                    p <= out@.len(),
                    j < stages@.len(),
                    forall|q: int| 0 <= q < out@.len() ==> out@[q] < j,
                    key@ == title_bytes(stages@[j as int]),
                    forall|q: int| 0 <= q < p ==> lex_le(
                        title_bytes(#[trigger] stages@[out@[q] as int]),
                        key@,
                    ),
                decreases out@.len() - p,
            {
                p = p + 1;
            }
            let ghost before = out@;
            proof {
                if p < before.len() {
                    lemma_lex_total(title_bytes(stages@[before[p as int] as int]), key@);
                    assert forall|q: int| p <= q < before.len() implies lex_le(
                        key@,
                        title_bytes(#[trigger] stages@[before[q] as int]),
                    ) by {
                        if q > p {
                            lemma_lex_transitive(
                                key@,
                                title_bytes(stages@[before[p as int] as int]),
                                title_bytes(stages@[before[q] as int]),
                            );
                        }
                    }
                }
            }
            out.insert(p, j);
            proof {
                let after = out@;
                assert(after == before.insert(p as int, j));
                assert forall|a: int, b: int| 0 <= a < b < after.len() implies lex_le(
                    title_bytes(#[trigger] stages@[after[a] as int]),
                    title_bytes(#[trigger] stages@[after[b] as int]),
                ) by {
                    if b < p {
                        assert(after[a] == before[a] && after[b] == before[b]);
                    } else if b == p {
                        assert(after[a] == before[a]);
                    } else if a < p {
                        assert(after[a] == before[a] && after[b] == before[b - 1]);
                        lemma_lex_transitive(
                            title_bytes(stages@[before[a] as int]),
                            key@,
                            title_bytes(stages@[before[b - 1] as int]),
                        );
                    } else if a == p {
                        assert(after[b] == before[b - 1]);
                    } else {
                        assert(after[a] == before[a - 1] && after[b] == before[b - 1]);
                    }
                }
                assert forall|a: int, b: int|
                    0 <= a < b < after.len() && (#[trigger] stages@[after[a] as int]).title@
                        == (#[trigger] stages@[after[b] as int]).title@ implies after[a] < after[b] by {
                    if b < p {
                        assert(after[a] == before[a] && after[b] == before[b]);
                    } else if b == p {
                        assert(after[a] == before[a]);
                        assert(before.contains(before[a]));
                    } else if a < p {
                        assert(after[a] == before[a] && after[b] == before[b - 1]);
                    } else if a == p {
                        assert(after[b] == before[b - 1]);
                        assert(title_bytes(stages@[before[b - 1] as int]) == key@);
                        lemma_lex_total(key@, key@);
                        if b - 1 > p {
                            assert(lex_le(
                                title_bytes(stages@[before[p as int] as int]),
                                title_bytes(stages@[before[b - 1] as int]),
                            ));
                        }
                        assert(false);
                    } else {
                        assert(after[a] == before[a - 1] && after[b] == before[b - 1]);
                    }
                }
                assert forall|k: usize| after.contains(k) <==> (k < j + 1 && chosen(
                    texts(stages@[k as int].tags@),
                    texts(included@),
                    texts(excluded@),
                )) by {
                    if after.contains(k) && k != j {
                        let x = choose|x: int| 0 <= x < after.len() && after[x] == k;
                        if x < p {
                            assert(before[x] == k);
                        } else {
                            assert(before[x - 1] == k);
                        }
                    }
                    if k == j {
                        assert(after[p as int] == j);
                    } else if before.contains(k) {
                        let x = choose|x: int| 0 <= x < before.len() && before[x] == k;
                        if x < p {
                            assert(after[x] == k);
                        } else {
                            assert(after[x + 1] == k);
                        }
                    }
                }
                assert(after.no_duplicates()) by {
                    assert(!before.contains(j));
                    assert forall|a: int, b: int| 0 <= a < b < after.len() implies after[a] != after[b] by {
                        if a < p && b < p {
                            assert(after[a] == before[a] && after[b] == before[b]);
                        } else if a < p && b == p {
                            assert(before.contains(after[a]));
                        } else if a < p {
                            assert(after[a] == before[a] && after[b] == before[b - 1]);
                        } else if a == p {
                            assert(after[b] == before[b - 1]);
                            assert(before.contains(after[b]));
                        } else {
                            assert(after[a] == before[a - 1] && after[b] == before[b - 1]);
                        }
                    }
                }
            }
        }
        j = j + 1;
    }
    out
}

/// The distinct texts of a vector of strings.
pub open spec fn text_set(v: Seq<String>) -> Set<Seq<char>> {
    texts(v).to_set()
}

/// Removes every string equal to `t` from `v`, keeping the others in order.
fn remove_text(v: &mut Vec<String>, t: &String)
    ensures
        text_set(final(v)@) == text_set(old(v)@).remove(t@),
{
    let mut kept: Vec<String> = Vec::new();
    let mut i: usize = 0;
    while i < v.len()
        invariant
            i <= v@.len(),
            text_set(kept@) == text_set(v@.subrange(0, i as int)).remove(t@),
        decreases v@.len() - i,
    {
        let ghost prefix = v@.subrange(0, i as int);
        assert(v@.subrange(0, i + 1) =~= prefix.push(v@[i as int]));
        assert(texts(prefix.push(v@[i as int])) =~= texts(prefix).push(v@[i as int]@));
        proof {
            texts(prefix).lemma_push_to_set_commute(v@[i as int]@);
        }
        if v[i] != *t {
            let ghost before = kept@;
            kept.push(v[i].clone());
            assert(texts(kept@) =~= texts(before).push(v@[i as int]@));
            proof {
                texts(before).lemma_push_to_set_commute(v@[i as int]@);
            }
            assert(text_set(kept@) =~= text_set(v@.subrange(0, i + 1)).remove(t@));
        } else {
            assert(text_set(kept@) =~= text_set(v@.subrange(0, i + 1)).remove(t@));
        }
        i = i + 1;
    }
    assert(v@.subrange(0, v@.len() as int) =~= v@);
    *v = kept;
}

/// Cycles the state of tag `t` when it is clicked: an included tag becomes
/// excluded, an excluded tag becomes neutral, a neutral tag becomes included.
pub fn toggle_tag(included: &mut Vec<String>, excluded: &mut Vec<String>, t: &String)
    ensures
        text_set(old(included)@).contains(t@) ==> text_set(final(included)@) == text_set(
            old(included)@,
        ).remove(t@) && text_set(final(excluded)@) == text_set(old(excluded)@).insert(t@),
        !text_set(old(included)@).contains(t@) && text_set(old(excluded)@).contains(t@) ==> text_set(
            final(included)@,
        ) == text_set(old(included)@) && text_set(final(excluded)@) == text_set(old(excluded)@).remove(
            t@,
        ),
        !text_set(old(included)@).contains(t@) && !text_set(old(excluded)@).contains(t@)
            ==> text_set(final(included)@) == text_set(old(included)@).insert(t@) && text_set(
            final(excluded)@,
        ) == text_set(old(excluded)@),
{
    if contains_text(included, t) {
        remove_text(included, t);
        if !contains_text(excluded, t) {
            let ghost before = excluded@;
            excluded.push(t.clone());
            assert(texts(excluded@) =~= texts(before).push(t@));
            proof {
                texts(before).lemma_push_to_set_commute(t@);
            }
            assert(text_set(excluded@) =~= text_set(before).insert(t@));
        } else {
            assert(text_set(excluded@) =~= text_set(excluded@).insert(t@));
        }
    } else if contains_text(excluded, t) {
        remove_text(excluded, t);
    } else {
        let ghost before = included@;
        included.push(t.clone());
        assert(texts(included@) =~= texts(before).push(t@));
        proof {
            texts(before).lemma_push_to_set_commute(t@);
        }
        assert(text_set(included@) =~= text_set(before).insert(t@));
    }
}

/// Whether the strings of `v` are in byte-wise order.
pub open spec fn sorted_texts(v: Seq<String>) -> bool {
    forall|p: int, q: int|
        0 <= p < q < v.len() ==> lex_le(encode_utf8((#[trigger] v[p])@), encode_utf8((#[trigger] v[q])@))
}

/// Inserts `t`, which `v` does not hold, at its place in the sorted `v`.
fn insert_sorted(v: &mut Vec<String>, t: &String)
    requires
        sorted_texts(old(v)@),
        texts(old(v)@).no_duplicates(),
        !texts(old(v)@).contains(t@),
    ensures
        sorted_texts(final(v)@),
        texts(final(v)@).no_duplicates(),
        forall|x: Seq<char>| texts(final(v)@).contains(x) <==> (texts(old(v)@).contains(x) || x == t@),
{
    let key = t.as_str().as_bytes();
    let mut p: usize = 0;
    while p < v.len() && bytes_le(v[p].as_str().as_bytes(), key)
        invariant
            p <= v@.len(),
            key@ == encode_utf8(t@),
            forall|q: int| 0 <= q < p ==> lex_le(encode_utf8((#[trigger] v@[q])@), key@),
        decreases v@.len() - p,
    {
        p = p + 1;
    }
    let ghost before = v@;
    proof {
        if p < before.len() {
            lemma_lex_total(encode_utf8(before[p as int]@), key@);
            assert forall|q: int| p <= q < before.len() implies lex_le(
                key@,
                encode_utf8((#[trigger] before[q])@),
            ) by {
                if q > p {
                    lemma_lex_transitive(key@, encode_utf8(before[p as int]@), encode_utf8(before[q]@));
                }
            }
        }
    }
    v.insert(p, t.clone());
    proof {
        let after = v@;
        assert(after == before.insert(p as int, *t));
        assert forall|a: int, b: int| 0 <= a < b < after.len() implies lex_le(
            encode_utf8((#[trigger] after[a])@),
            encode_utf8((#[trigger] after[b])@),
        ) by {
            if b < p {
                assert(after[a] == before[a] && after[b] == before[b]);
            } else if b == p {
                assert(after[a] == before[a]);
            } else if a < p {
                assert(after[a] == before[a] && after[b] == before[b - 1]);
                lemma_lex_transitive(encode_utf8(before[a]@), key@, encode_utf8(before[b - 1]@));
            } else if a == p {
                assert(after[b] == before[b - 1]);
            } else {
                assert(after[a] == before[a - 1] && after[b] == before[b - 1]);
            }
        }
        assert forall|x: Seq<char>| texts(after).contains(x) <==> (texts(before).contains(x) || x == t@) by {
            if texts(after).contains(x) {
                let y = choose|y: int| 0 <= y < texts(after).len() && texts(after)[y] == x;
                if y < p {
                    assert(texts(before)[y] == x);
                } else if y > p {
                    assert(texts(before)[y - 1] == x);
                }
            }
            if texts(before).contains(x) {
                let y = choose|y: int| 0 <= y < texts(before).len() && texts(before)[y] == x;
                if y < p {
                    assert(texts(after)[y] == x);
                } else {
                    assert(texts(after)[y + 1] == x);
                }
            }
            if x == t@ {
                assert(texts(after)[p as int] == x);
            }
        }
        assert(texts(after).no_duplicates()) by {
            assert forall|a: int, b: int| 0 <= a < b < texts(after).len() implies texts(after)[a] != texts(
                after,
            )[b] by {
                let ta = texts(after);
                let tb = texts(before);
                assert(ta[p as int] == t@);
                if a < p && b < p {
                    assert(ta[a] == tb[a] && ta[b] == tb[b]);
                } else if a < p && b == p {
                    assert(ta[a] == tb[a]);
                } else if a < p {
                    assert(ta[a] == tb[a] && ta[b] == tb[b - 1]);
                } else if a == p {
                    assert(ta[b] == tb[b - 1]);
                } else {
                    assert(ta[a] == tb[a - 1] && ta[b] == tb[b - 1]);
                }
            }
        }
    }
}

/// Whether one of the first `n` stages carries tag `t`.
pub open spec fn carried(stages: Seq<Stage>, n: int, t: Seq<char>) -> bool {
    exists|i: int| 0 <= i < n && texts((#[trigger] stages[i]).tags@).contains(t)
}

/// Every tag that some stage carries, each once, in byte-wise order.
pub fn unique_tags(stages: &Vec<Stage>) -> (r: Vec<String>)
    ensures
        texts(r@).no_duplicates(),
        sorted_texts(r@),
        forall|t: Seq<char>| texts(r@).contains(t) <==> carried(stages@, stages@.len() as int, t),
{
    let mut out: Vec<String> = Vec::new();
    let mut i: usize = 0;
    while i < stages.len()
        invariant
            i <= stages@.len(),
            texts(out@).no_duplicates(),
            sorted_texts(out@),
            forall|t: Seq<char>| texts(out@).contains(t) <==> carried(stages@, i as int, t),
        decreases stages@.len() - i,
    {
        let tags = &stages[i].tags;
        let mut k: usize = 0;
        while k < tags.len()
            invariant
                i < stages@.len(),
                *tags == stages@[i as int].tags,
                k <= tags@.len(),
                texts(out@).no_duplicates(),
                sorted_texts(out@),
                forall|t: Seq<char>|
                    texts(out@).contains(t) <==> (carried(stages@, i as int, t) || texts(
                        tags@,
                    ).subrange(0, k as int).contains(t)),
            decreases tags@.len() - k,
        {
            let ghost prev = out@;
            if !contains_text(&out, &tags[k]) {
                insert_sorted(&mut out, &tags[k]);
            }
            assert forall|t: Seq<char>|
                texts(out@).contains(t) <==> (carried(stages@, i as int, t) || texts(
                    tags@,
                ).subrange(0, k + 1).contains(t)) by {
                let pre = texts(tags@).subrange(0, k as int);
                let ext = texts(tags@).subrange(0, k + 1);
                assert(ext =~= pre.push(tags@[k as int]@));
                if pre.contains(t) {
                    let y = choose|y: int| 0 <= y < pre.len() && pre[y] == t;
                    assert(ext[y] == t);
                }
                if ext.contains(t) && t != tags@[k as int]@ {
                    let y = choose|y: int| 0 <= y < ext.len() && ext[y] == t;
                    assert(pre[y] == t);
                }
                if t == tags@[k as int]@ {
                    assert(ext[k as int] == t);
                }
            }
            k = k + 1;
        }
        assert forall|t: Seq<char>| texts(out@).contains(t) <==> carried(stages@, i + 1, t) by {
            assert(texts(tags@).subrange(0, tags@.len() as int) =~= texts(tags@));
            if carried(stages@, i + 1, t) && !carried(stages@, i as int, t) {
                let y = choose|y: int| 0 <= y < i + 1 && texts((#[trigger] stages@[y]).tags@).contains(t);
                assert(y == i);
            }
            if texts(tags@).contains(t) {
                assert(texts(stages@[i as int].tags@).contains(t));
            }
        }
        i = i + 1;
    }
    out
}

} // verus!
