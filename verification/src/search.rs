//! The search engine: scoring names against a query and ranking the matches.
//!
//! A query is cut into tokens at single spaces. A record scores one point for
//! every token that occurs in its name, letter case aside; the empty tokens
//! that neighbouring spaces leave score nothing. Records without a point are
//! left out; the others are listed by falling score, and records with the
//! same score keep the order in which they were given.

use vstd::prelude::*;
use crate::structs::{records, Emoji, EmojiView};
use crate::text::{
    chars_of, first, fold_case, lemma_rows_push, lowercase, occurs, occurs_in, rows, split,
    split_on, string_of,
};
use crate::ui_options::MAX_RESULTS;

verus! {

/// `token` earns `name` a point: it is not empty and occurs in `name`.
pub open spec fn hits(token: Seq<char>, name: Seq<char>) -> bool {
    token.len() > 0 && occurs_in(token, name)
}

/// How many of `tokens` earn `name` a point. A token counts once however
/// often it occurs in the name, a token that is listed twice counts twice,
/// and an empty token counts for nothing.
pub open spec fn score(name: Seq<char>, tokens: Seq<Seq<char>>) -> nat
    decreases tokens.len(),
{
    if tokens.len() == 0 {
        0
    } else {
        score(name, tokens.drop_last()) + if hits(tokens.last(), name) {
            1nat
        } else {
            0nat
        }
    }
}

/// The score of each name against `tokens`.
pub open spec fn scores_of(names: Seq<Seq<char>>, tokens: Seq<Seq<char>>) -> Seq<nat> {
    names.map_values(|n: Seq<char>| score(n, tokens))
}

/// The positions that hold score `s`, in rising order.
pub open spec fn with_score(scores: Seq<nat>, s: nat) -> Seq<int>
    decreases scores.len(),
{
    if scores.len() == 0 {
        seq![]
    } else if scores.last() == s {
        with_score(scores.drop_last(), s).push(scores.len() - 1)
    } else {
        with_score(scores.drop_last(), s)
    }
}

/// The positions whose score lies between 1 and `top`: first those with score
/// `top`, then those with `top - 1`, and so on down to 1, each group in
/// rising order.
pub open spec fn ranking(scores: Seq<nat>, top: nat) -> Seq<int>
    decreases top,
{
    if top == 0 {
        seq![]
    } else {
        with_score(scores, top) + ranking(scores, (top - 1) as nat)
    }
}

/// The candidates picked out by the first `limit` entries of the ranking of
/// `scores`.
pub open spec fn ranked(cands: Seq<EmojiView>, scores: Seq<nat>, top: nat, limit: nat) -> Seq<
    EmojiView,
> {
    first(ranking(scores, top), limit).map_values(|i: int| cands[i])
}

/// The tokens of a query, lowercased one by one.
pub open spec fn query_tokens(query: Seq<char>) -> Seq<Seq<char>> {
    split(query, ' ').map_values(|t: Seq<char>| lowercase(t))
}

/// The lowercased names of the candidates.
pub open spec fn folded_names(cands: Seq<EmojiView>) -> Seq<Seq<char>> {
    cands.map_values(|c: EmojiView| lowercase(c.name))
}

/// The score of each candidate against a query.
pub open spec fn query_scores(query: Seq<char>, cands: Seq<EmojiView>) -> Seq<nat> {
    scores_of(folded_names(cands), query_tokens(query))
}

/// The positions of the candidates that match a non-empty query, best first.
pub open spec fn match_order(query: Seq<char>, cands: Seq<EmojiView>) -> Seq<int> {
    ranking(query_scores(query, cands), query_tokens(query).len())
}

/// What a query shows: for the empty query the first `limit` candidates as
/// they stand, else the first `limit` matches, best first.
pub open spec fn rank_spec(query: Seq<char>, cands: Seq<EmojiView>, limit: nat) -> Seq<EmojiView> {
    if query.len() == 0 {
        first(cands, limit)
    } else {
        first(match_order(query, cands), limit).map_values(|i: int| cands[i])
    }
}

/// Machine integers as mathematical ones.
pub open spec fn as_ints(v: Seq<usize>) -> Seq<int> {
    v.map_values(|x: usize| x as int)
}

/// Machine integers as natural numbers.
pub open spec fn as_nats(v: Seq<usize>) -> Seq<nat> {
    v.map_values(|x: usize| x as nat)
}

/// No score exceeds the number of tokens.
pub proof fn lemma_score_bound(name: Seq<char>, tokens: Seq<Seq<char>>)
    ensures
        score(name, tokens) <= tokens.len(),
    decreases tokens.len(),
{
    if tokens.len() > 0 {
        lemma_score_bound(name, tokens.drop_last());
    }
}

/// The positions with score `s` are exactly the valid positions that hold
/// `s`, and they are listed in strictly rising order.
pub proof fn lemma_with_score(scores: Seq<nat>, s: nat)
    ensures
        with_score(scores, s).len() <= scores.len(),
        forall|k: int|
            0 <= k < with_score(scores, s).len() ==> 0 <= #[trigger] with_score(scores, s)[k]
                < scores.len() && scores[with_score(scores, s)[k]] == s,
        forall|k: int, l: int|
            0 <= k < l < with_score(scores, s).len() ==> with_score(scores, s)[k] < with_score(
                scores,
                s,
            )[l],
        forall|p: int|
            0 <= p < scores.len() && scores[p] == s ==> with_score(scores, s).contains(p),
    decreases scores.len(),
{
    if scores.len() > 0 {
        let init = scores.drop_last();
        lemma_with_score(init, s);
        let w = with_score(scores, s);
        let wi = with_score(init, s);
        assert forall|p: int| 0 <= p < scores.len() && scores[p] == s implies w.contains(p) by {
            if p < init.len() {
                assert(init[p] == s);
                let k = choose|k: int| 0 <= k < wi.len() && wi[k] == p;
                assert(w[k] == p);
            } else {
                assert(w[w.len() - 1] == p);
            }
        }
    }
}

/// Every entry of a ranking is a valid position whose score lies between 1
/// and `top`.
pub proof fn lemma_ranking_entries(scores: Seq<nat>, top: nat)
    ensures
        forall|k: int|
            0 <= k < ranking(scores, top).len() ==> 0 <= #[trigger] ranking(scores, top)[k]
                < scores.len() && 1 <= scores[ranking(scores, top)[k]] <= top,
    decreases top,
{
    if top > 0 {
        lemma_with_score(scores, top);
        lemma_ranking_entries(scores, (top - 1) as nat);
        assert(ranking(scores, top) == with_score(scores, top) + ranking(
            scores,
            (top - 1) as nat,
        ));
    }
}

/// Every valid position whose score lies between 1 and `top` is an entry of
/// the ranking.
pub proof fn lemma_ranking_complete(scores: Seq<nat>, top: nat, p: int)
    requires
        0 <= p < scores.len(),
        1 <= scores[p] <= top,
    ensures
        ranking(scores, top).contains(p),
    decreases top,
{
    let head = with_score(scores, top);
    let tail = ranking(scores, (top - 1) as nat);
    if scores[p] == top {
        lemma_with_score(scores, top);
        let k = choose|k: int| 0 <= k < head.len() && head[k] == p;
        assert(ranking(scores, top)[k] == p);
    } else {
        lemma_ranking_complete(scores, (top - 1) as nat, p);
        let k = choose|k: int| 0 <= k < tail.len() && tail[k] == p;
        assert(ranking(scores, top)[head.len() + k] == p);
    }
}

/// A ranking runs by falling score, and entries with the same score stand in
/// rising order of position. So no position is listed twice.
pub proof fn lemma_ranking_ordered(scores: Seq<nat>, top: nat, i: int, j: int)
    requires
        0 <= i < j < ranking(scores, top).len(),
    ensures
        scores[ranking(scores, top)[i]] >= scores[ranking(scores, top)[j]],
        scores[ranking(scores, top)[i]] == scores[ranking(scores, top)[j]] ==> ranking(
            scores,
            top,
        )[i] < ranking(scores, top)[j],
        ranking(scores, top)[i] != ranking(scores, top)[j],
    decreases top,
{
    let head = with_score(scores, top);
    lemma_with_score(scores, top);
    lemma_ranking_entries(scores, (top - 1) as nat);
    let tail = ranking(scores, (top - 1) as nat);
    if j < head.len() {
        assert(ranking(scores, top)[i] == head[i]);
        assert(ranking(scores, top)[j] == head[j]);
    } else if i < head.len() {
        assert(ranking(scores, top)[i] == head[i]);
        assert(ranking(scores, top)[j] == tail[j - head.len()]);
    } else {
        assert(ranking(scores, top)[i] == tail[i - head.len()]);
        assert(ranking(scores, top)[j] == tail[j - head.len()]);
        lemma_ranking_ordered(scores, (top - 1) as nat, i - head.len(), j - head.len());
    }
}

/// Position `a` ranks before position `b`: it scores higher, or the same and
/// stands earlier.
pub open spec fn outranks(scores: Seq<nat>, a: int, b: int) -> bool {
    scores[a] > scores[b] || (scores[a] == scores[b] && a < b)
}

/// `r` lists exactly the positions that score between 1 and `top`, each one
/// ranked before all that follow it.
pub open spec fn is_ranking(scores: Seq<nat>, top: nat, r: Seq<int>) -> bool {
    &&& forall|k: int|
        0 <= k < r.len() ==> 0 <= #[trigger] r[k] < scores.len() && 1 <= scores[r[k]] <= top
    &&& forall|i: int, j: int| 0 <= i < j < r.len() ==> outranks(scores, r[i], r[j])
    &&& forall|p: int| 0 <= p < scores.len() && 1 <= scores[p] <= top ==> r.contains(p)
}

/// Two lists in ranked order that hold the same positions are the same list.
proof fn lemma_same_members_same_order(scores: Seq<nat>, a: Seq<int>, b: Seq<int>)
    requires
        forall|i: int, j: int| 0 <= i < j < a.len() ==> outranks(scores, a[i], a[j]),
        forall|i: int, j: int| 0 <= i < j < b.len() ==> outranks(scores, b[i], b[j]),
        forall|x: int| a.contains(x) <==> b.contains(x),
    ensures
        a == b,
    decreases a.len(),
{
    if a.len() == 0 {
        if b.len() > 0 {
            assert(b.contains(b[0]));
        }
    } else {
        let x = a.last();
        assert(a.contains(x));
        let k = choose|k: int| 0 <= k < b.len() && b[k] == x;
        let y = b.last();
        assert(b.contains(y));
        let m = choose|m: int| 0 <= m < a.len() && a[m] == y;
        if x != y {
            assert(outranks(scores, b[k], b[b.len() - 1]));
            assert(outranks(scores, a[m], a[a.len() - 1]));
        }
        let a0 = a.drop_last();
        let b0 = b.drop_last();
        assert forall|z: int| a0.contains(z) <==> b0.contains(z) by {
            if a0.contains(z) {
                let i = choose|i: int| 0 <= i < a0.len() && a0[i] == z;
                assert(outranks(scores, a[i], a[a.len() - 1]));
                assert(a.contains(z));
                let j = choose|j: int| 0 <= j < b.len() && b[j] == z;
                assert(b0[j] == z);
            }
            if b0.contains(z) {
                let i = choose|i: int| 0 <= i < b0.len() && b0[i] == z;
                assert(outranks(scores, b[i], b[b.len() - 1]));
                assert(b.contains(z));
                let j = choose|j: int| 0 <= j < a.len() && a[j] == z;
                assert(a0[j] == z);
            }
        }
        lemma_same_members_same_order(scores, a0, b0);
        assert(b0.push(y) =~= b);
    }
}

/// The ranking is the one list that holds exactly the positions scoring
/// between 1 and `top`, by falling score and, among equal scores, by rising
/// position.
pub proof fn lemma_ranking_unique(scores: Seq<nat>, top: nat, r: Seq<int>)
    ensures
        is_ranking(scores, top, ranking(scores, top)),
        is_ranking(scores, top, r) ==> r == ranking(scores, top),
{
    let q = ranking(scores, top);
    lemma_ranking_entries(scores, top);
    assert forall|i: int, j: int| 0 <= i < j < q.len() implies outranks(scores, q[i], q[j]) by {
        lemma_ranking_ordered(scores, top, i, j);
    }
    assert forall|p: int| 0 <= p < scores.len() && 1 <= scores[p] <= top implies q.contains(
        p,
    ) by {
        lemma_ranking_complete(scores, top, p);
    }
    if is_ranking(scores, top, r) {
        lemma_same_members_same_order(scores, r, q);
    }
}

/// A candidate is among the matches of a non-empty query exactly when it
/// scores at least one point.
pub proof fn lemma_matches_listed(query: Seq<char>, cands: Seq<EmojiView>, p: int)
    requires
        0 <= p < cands.len(),
    ensures
        match_order(query, cands).contains(p) <==> query_scores(query, cands)[p] >= 1,
{
    let scores = query_scores(query, cands);
    let top = query_tokens(query).len();
    lemma_score_bound(folded_names(cands)[p], query_tokens(query));
    lemma_ranking_entries(scores, top);
    if scores[p] >= 1 {
        lemma_ranking_complete(scores, top, p);
    }
}

/// Of two matches, the one listed first scores at least as high as the other;
/// where both score the same, it is the one that stood first among the
/// candidates.
pub proof fn lemma_matches_ordered(query: Seq<char>, cands: Seq<EmojiView>, i: int, j: int)
    requires
        0 <= i < j < match_order(query, cands).len(),
    ensures
        0 <= match_order(query, cands)[i] < cands.len(),
        0 <= match_order(query, cands)[j] < cands.len(),
        query_scores(query, cands)[match_order(query, cands)[i]] >= query_scores(
            query,
            cands,
        )[match_order(query, cands)[j]],
        query_scores(query, cands)[match_order(query, cands)[i]] == query_scores(
            query,
            cands,
        )[match_order(query, cands)[j]] ==> match_order(query, cands)[i] < match_order(
            query,
            cands,
        )[j],
{
    let scores = query_scores(query, cands);
    let top = query_tokens(query).len();
    lemma_ranking_entries(scores, top);
    lemma_ranking_ordered(scores, top, i, j);
}

/// What a non-empty query shows is the start of its matches in their order,
/// and never more than `limit` records.
pub proof fn lemma_rank_shows_first_matches(
    query: Seq<char>,
    cands: Seq<EmojiView>,
    limit: nat,
    k: int,
)
    requires
        query.len() > 0,
        0 <= k < rank_spec(query, cands, limit).len(),
    ensures
        rank_spec(query, cands, limit).len() <= limit,
        rank_spec(query, cands, limit).len() <= match_order(query, cands).len(),
        rank_spec(query, cands, limit).len() == limit || rank_spec(query, cands, limit).len()
            == match_order(query, cands).len(),
        rank_spec(query, cands, limit)[k] == cands[match_order(query, cands)[k]],
{
}

/// No query shows more than `limit` records.
pub proof fn lemma_rank_capped(query: Seq<char>, cands: Seq<EmojiView>, limit: nat)
    ensures
        rank_spec(query, cands, limit).len() <= limit,
{
}

/// How many tokens earn `name` a point.
pub fn count_matches(name: &Vec<char>, tokens: &Vec<Vec<char>>) -> (n: usize)
    ensures
        n == score(name@, rows(tokens@)),
{
    let mut n: usize = 0;
    let mut i: usize = 0;
    while i < tokens.len()
        invariant
            i <= tokens.len(),
            n <= i,
            n == score(name@, rows(tokens@).take(i as int)),
        decreases tokens.len() - i,
    {
        proof {
            let next = rows(tokens@).take(i + 1);
            assert(next.drop_last() =~= rows(tokens@).take(i as int));
        }
        if tokens[i].len() > 0 && occurs(&tokens[i], name) {
            n += 1;
        }
        i += 1;
    }
    assert(rows(tokens@).take(i as int) =~= rows(tokens@));
    n
}

/// The ranking of `scores`: positions with a score between 1 and `top`, by
/// falling score, equal scores by rising position.
pub fn order_by_score(scores: &Vec<usize>, top: usize) -> (order: Vec<usize>)
    ensures
        as_ints(order@) == ranking(as_nats(scores@), top as nat),
{
    let ghost sc = as_nats(scores@);
    let mut order: Vec<usize> = Vec::new();
    let mut s: usize = top;
    while s > 0
        invariant
            sc == as_nats(scores@),
            as_ints(order@) + ranking(sc, s as nat) == ranking(sc, top as nat),
        decreases s,
    {
        let ghost before = as_ints(order@);
        let mut i: usize = 0;
        while i < scores.len()
            invariant
                i <= scores.len(),
                sc == as_nats(scores@),
                as_ints(order@) == before + with_score(sc.take(i as int), s as nat),
            decreases scores.len() - i,
        {
            proof {
                let next = sc.take(i + 1);
                assert(next.drop_last() =~= sc.take(i as int));
            }
            if scores[i] == s {
                proof {
                    assert(before + with_score(sc.take(i as int), s as nat).push(i as int)
                        =~= as_ints(order@).push(i as int));
                }
                order.push(i);
            }
            i += 1;
        }
        proof {
            assert(sc.take(i as int) =~= sc);
        }
        s -= 1;
    }
    order
}

/// The first `limit` of `candidates`, or all of them when there are fewer.
pub fn first_records(candidates: &Vec<Emoji>, limit: usize) -> (out: Vec<Emoji>)
    ensures
        records(out@) == first(records(candidates@), limit as nat),
        out.len() <= limit,
{
    let n: usize = if limit < candidates.len() {
        limit
    } else {
        candidates.len()
    };
    let mut out: Vec<Emoji> = Vec::new();
    let mut i: usize = 0;
    while i < n
        invariant
            i <= n <= candidates.len(),
            out.len() == i,
            records(out@) == records(candidates@).take(i as int),
        decreases n - i,
    {
        let record = candidates[i].clone();
        out.push(record);
        i += 1;
    }
    out
}

/// Ranks `candidates` by how many of `tokens` occur in their names. `names`
/// holds, position by position, the text that stands for each candidate's
/// name in the comparison; it and `tokens` are compared character by
/// character, so the caller has already put both into one letter case.
pub fn rank_folded(
    names: &Vec<Vec<char>>,
    tokens: &Vec<Vec<char>>,
    candidates: &Vec<Emoji>,
    limit: usize,
) -> (out: Vec<Emoji>)
    requires
        names.len() == candidates.len(),
    ensures
        records(out@) == ranked(
            records(candidates@),
            scores_of(rows(names@), rows(tokens@)),
            tokens.len() as nat,
            limit as nat,
        ),
        out.len() <= limit,
{
    let ghost sc = scores_of(rows(names@), rows(tokens@));
    let mut scores: Vec<usize> = Vec::new();
    let mut i: usize = 0;
    while i < names.len()
        invariant
            i <= names.len(),
            sc == scores_of(rows(names@), rows(tokens@)),
            as_nats(scores@) == sc.take(i as int),
        decreases names.len() - i,
    {
        let n = count_matches(&names[i], tokens);
        proof {
            assert(sc.take(i + 1) =~= sc.take(i as int).push(sc[i as int]));
        }
        scores.push(n);
        i += 1;
    }
    assert(sc.take(i as int) =~= sc);
    let order = order_by_score(&scores, tokens.len());
    let ghost full = ranking(sc, tokens.len() as nat);
    proof {
        lemma_ranking_entries(sc, tokens.len() as nat);
    }
    let n: usize = if limit < order.len() {
        limit
    } else {
        order.len()
    };
    let mut out: Vec<Emoji> = Vec::new();
    let mut k: usize = 0;
    while k < n
        invariant
            k <= n <= order.len(),
            out.len() == k,
            names.len() == candidates.len(),
            sc.len() == names.len(),
            as_ints(order@) == full,
            forall|j: int| 0 <= j < full.len() ==> 0 <= #[trigger] full[j] < sc.len(),
            records(out@) == full.take(k as int).map_values(|i: int| records(candidates@)[i]),
        decreases n - k,
    {
        let p: usize = order[k];
        assert(full[k as int] == p);
        let record = candidates[p].clone();
        proof {
            let pick = |i: int| records(candidates@)[i];
            assert(full.take(k + 1).map_values(pick) =~= full.take(k as int).map_values(
                pick,
            ).push(pick(p as int)));
        }
        out.push(record);
        k += 1;
    }
    out
}

/// The records to show for `query` out of `candidates`, at most `limit` of
/// them. The empty query shows the candidates as they stand. Any other query
/// shows the candidates whose name holds at least one token, by falling
/// number of tokens held; candidates that hold equally many stay in the
/// order given. The cut to `limit` is made on the finished ranking.
pub fn rank(query: &str, candidates: &Vec<Emoji>, limit: usize) -> (out: Vec<Emoji>)
    ensures
        records(out@) == rank_spec(query@, records(candidates@), limit as nat),
        out.len() <= limit,
        query@.len() == 0 ==> records(out@) == first(records(candidates@), limit as nat),
{
    let q = chars_of(query);
    if q.len() == 0 {
        return first_records(candidates, limit);
    }
    let raw = split_on(&q, ' ');
    let mut tokens: Vec<Vec<char>> = Vec::new();
    let mut i: usize = 0;
    while i < raw.len()
        invariant
            i <= raw.len(),
            rows(raw@) == split(query@, ' '),
            rows(tokens@) == query_tokens(query@).take(i as int),
        decreases raw.len() - i,
    {
        let token = string_of(&raw[i], 0, raw[i].len());
        let folded = fold_case(token.as_str());
        proof {
            lemma_rows_push(tokens@, folded);
            assert(raw@[i as int]@.subrange(0, raw@[i as int]@.len() as int) =~= raw@[i as int]@);
        }
        tokens.push(folded);
        i += 1;
    }
    assert(query_tokens(query@).take(i as int) =~= query_tokens(query@));
    let mut names: Vec<Vec<char>> = Vec::new();
    let mut j: usize = 0;
    while j < candidates.len()
        invariant
            j <= candidates.len(),
            rows(names@) == folded_names(records(candidates@)).take(j as int),
        decreases candidates.len() - j,
    {
        let folded = fold_case(candidates[j].name.as_str());
        proof {
            lemma_rows_push(names@, folded);
        }
        names.push(folded);
        j += 1;
    }
    assert(folded_names(records(candidates@)).take(j as int) =~= folded_names(
        records(candidates@),
    ));
    rank_folded(&names, &tokens, candidates, limit)
}

/// The result list for `query`: the ranking of `emojis`, cut to
/// [`MAX_RESULTS`].
pub fn update_entries(query: &str, emojis: &Vec<Emoji>) -> (out: Vec<Emoji>)
    ensures
        records(out@) == rank_spec(query@, records(emojis@), MAX_RESULTS as nat),
        out.len() <= MAX_RESULTS,
{
    rank(query, emojis, MAX_RESULTS)
}

} // verus!
