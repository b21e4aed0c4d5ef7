use crate::edit_buffer::EditBuffer;
use crate::maps::StringMap;
use crate::state::pairs_view;
use crate::text::{
    begins_with, lowercase, occurs_in, str_contains, str_eq, str_starts_with, to_lowercase,
};
use crate::types::{days_view, forest_view, Block, BlockView, DailyNote, DailyNoteView};
use vstd::prelude::*;

verus! {

/// Blocks offered at most when a reference is being typed.
pub const AUTOCOMPLETE_LIMIT: usize = 20;

/// Blocks offered at most by the search.
pub const SEARCH_LIMIT: usize = 50;

/// Pages offered at most by the quick switcher.
pub const QUICK_SWITCHER_LIMIT: usize = 50;

/// Whether the cursor of `buffer` stands between `((` and `))`: the place
/// where a reference to a block is typed.
pub open spec fn at_block_ref(chars: Seq<char>, cursor: int) -> bool {
    &&& cursor >= 2
    &&& cursor + 1 < chars.len()
    &&& chars[cursor - 2] == '('
    &&& chars[cursor - 1] == '('
    &&& chars[cursor] == ')'
    &&& chars[cursor + 1] == ')'
}

/// Whether the cursor of `buffer` stands between `((` and `))`.
pub fn detect_block_ref_trigger(buffer: &EditBuffer) -> (r: bool)
    ensures
        r == at_block_ref(buffer.chars@, buffer.cursor as int),
{
    let c = buffer.cursor;
    c >= 2 && c < buffer.chars.len() && c + 1 < buffer.chars.len() && buffer.chars[c - 2] == '('
        && buffer.chars[c - 1] == '(' && buffer.chars[c] == ')' && buffer.chars[c + 1] == ')'
}

/// Whether a text answers the query `query`, which is in lower case: the text
/// is not empty, and the query is empty or occurs in the lower-case form of
/// the text.
pub open spec fn answers(text: Seq<char>, query: Seq<char>) -> bool {
    text.len() > 0 && (query.len() == 0 || occurs_in(query, lowercase(text)))
}

/// Uid and text of the blocks of `f` that answer `query`, each block before
/// its sub-blocks and those before its later siblings, open or not.
pub open spec fn matches(f: Seq<BlockView>, query: Seq<char>) -> Seq<(Seq<char>, Seq<char>)>
    decreases f,
{
    if f.len() == 0 {
        Seq::empty()
    } else {
        (if answers(f[0].text, query) {
            seq![(f[0].uid, f[0].text)]
        } else {
            Seq::empty()
        }) + matches(f[0].children, query) + matches(f.skip(1), query)
    }
}

/// The blocks of all pages that answer `query`.
pub open spec fn matches_in_days(days: Seq<DailyNoteView>, query: Seq<char>) -> Seq<
    (Seq<char>, Seq<char>),
>
    decreases days.len(),
{
    if days.len() == 0 {
        Seq::empty()
    } else {
        matches(days[0].blocks, query) + matches_in_days(days.skip(1), query)
    }
}

/// The first `limit` of `s`, or all of it where it has fewer.
pub open spec fn capped<A>(s: Seq<A>, limit: nat) -> Seq<A> {
    if s.len() > limit {
        s.take(limit as int)
    } else {
        s
    }
}

/// Whether one of `pairs` has `uid` as its first part.
pub open spec fn has_uid(pairs: Seq<(Seq<char>, Seq<char>)>, uid: Seq<char>) -> bool {
    exists|j: int| 0 <= j < pairs.len() && #[trigger] pairs[j].0 == uid
}

/// `acc` with the entries of `cache` added that answer `query` and whose uid
/// is not yet there, in their order, until `limit` results are reached.
pub open spec fn with_cached(
    acc: Seq<(Seq<char>, Seq<char>)>,
    cache: Seq<(Seq<char>, Seq<char>)>,
    query: Seq<char>,
    limit: nat,
) -> Seq<(Seq<char>, Seq<char>)>
    decreases cache.len(),
{
    if cache.len() == 0 || acc.len() >= limit {
        acc
    } else if answers(cache[0].1, query) && !has_uid(acc, cache[0].0) {
        with_cached(acc.push(cache[0]), cache.skip(1), query, limit)
    } else {
        with_cached(acc, cache.skip(1), query, limit)
    }
}

/// What a search for `query` (in lower case) offers: the blocks of the pages
/// that answer it, then the cached texts of blocks elsewhere that answer it,
/// `limit` in all at most.
pub open spec fn found(
    days: Seq<DailyNoteView>,
    cache: Seq<(Seq<char>, Seq<char>)>,
    query: Seq<char>,
    limit: nat,
) -> Seq<(Seq<char>, Seq<char>)> {
    with_cached(capped(matches_in_days(days, query), limit), cache, query, limit)
}

pub proof fn lemma_capped_more<A>(a: Seq<A>, b: Seq<A>, limit: nat)
    ensures
        capped(capped(a, limit) + b, limit) == capped(a + b, limit),
        a.len() >= limit ==> capped(a + b, limit) == capped(a, limit),
        capped(a, limit).len() <= limit,
        a.len() <= limit ==> capped(a, limit) == a,
{
    assert(capped(capped(a, limit) + b, limit) =~= capped(a + b, limit));
    if a.len() >= limit {
        assert(capped(a + b, limit) =~= capped(a, limit));
    }
}

/// Whether `text` answers `query`, which is in lower case.
pub fn text_answers(text: &str, query: &str) -> (r: bool)
    ensures
        r == answers(text@, query@),
{
    if text.is_empty() {
        return false;
    }
    if query.is_empty() {
        return true;
    }
    let lower = to_lowercase(text);
    str_contains(lower.as_str(), query)
}

/// Adds to `results` the blocks of `blocks` that answer `query`, until there
/// are `limit` results.
pub fn collect_matching_blocks(
    blocks: &Vec<Block>,
    query: &str,
    results: &mut Vec<(String, String)>,
    limit: usize,
)
    requires
        old(results).len() <= limit,
    ensures
        pairs_view(final(results)@) == capped(
            pairs_view(old(results)@) + matches(forest_view(blocks@), query@),
            limit as nat,
        ),
        final(results).len() <= limit,
    decreases blocks@,
{
    let ghost f = forest_view(blocks@);
    let ghost start = pairs_view(results@);
    let ghost q = query@;
    let mut i: usize = 0;
    proof {
        assert(f.take(0) =~= Seq::<BlockView>::empty());
        assert(start + matches(f.take(0), q) =~= start);
    }
    while i < blocks.len()
        invariant
            i <= blocks.len(),
            f == forest_view(blocks@),
            f.len() == blocks.len(),
            q == query@,
            start == pairs_view(old(results)@),
            start.len() <= limit,
            results.len() <= limit,
            pairs_view(results@) == capped(start + matches(f.take(i as int), q), limit as nat),
        decreases blocks.len() - i,
    {
        proof {
            lemma_matches_take(f, q, i as int);
            crate::blocks::lemma_view_index(blocks@, i as int);
        }
        let ghost upto = start + matches(f.take(i as int), q);
        let ghost own = if answers(f[i as int].text, q) {
            seq![(f[i as int].uid, f[i as int].text)]
        } else {
            Seq::empty()
        };
        proof {
            assert(pairs_view(results@).len() == results.len());
            assert(f[i as int].text == blocks@[i as int].string@);
        }
        if results.len() >= limit {
            proof {
                assert(upto.len() >= limit);
                lemma_capped_more(upto, matches(f.skip(i as int), q), limit as nat);
                lemma_matches_split(f, q, i as int);
                assert(start + matches(f, q) =~= upto + matches(f.skip(i as int), q));
            }
            return;
        }
        proof {
            assert(upto.len() < limit);
            assert(pairs_view(results@) == upto);
        }
        if text_answers(blocks[i].string.as_str(), query) {
            let ghost before = results@;
            let uid = blocks[i].uid.clone();
            let text = blocks[i].string.clone();
            results.push((uid, text));
            proof {
                lemma_pairs_push(before, uid, text);
                assert(pairs_view(results@) =~= upto + own);
            }
        }
        proof {
            assert(pairs_view(results@) =~= capped(upto + own, limit as nat));
        }
        collect_matching_blocks(&blocks[i].children, query, results, limit);
        proof {
            lemma_capped_more(upto + own, matches(f[i as int].children, q), limit as nat);
            assert(start + matches(f.take(i + 1), q) =~= upto + own + matches(
                f[i as int].children,
                q,
            ));
        }
        i += 1;
    }
    proof {
        assert(f.take(f.len() as int) =~= f);
    }
}

/// The answers among the first `i + 1` blocks are those among the first `i`,
/// then those of block `i` and of what is below it.
pub proof fn lemma_matches_take(f: Seq<BlockView>, q: Seq<char>, i: int)
    requires
        0 <= i < f.len(),
    ensures
        matches(f.take(i + 1), q) == matches(f.take(i), q) + (if answers(f[i].text, q) {
            seq![(f[i].uid, f[i].text)]
        } else {
            Seq::empty()
        }) + matches(f[i].children, q),
    decreases i,
{
    let own = if answers(f[i].text, q) {
        seq![(f[i].uid, f[i].text)]
    } else {
        Seq::<(Seq<char>, Seq<char>)>::empty()
    };
    if i == 0 {
        assert(f.take(1).skip(1) =~= Seq::<BlockView>::empty());
        assert(f.take(0) =~= Seq::<BlockView>::empty());
        assert(matches(f.take(1), q) =~= own + matches(f[0].children, q));
        assert(matches(f.take(0), q) + own + matches(f[0].children, q) =~= own + matches(
            f[0].children,
            q,
        ));
    } else {
        lemma_matches_take(f.skip(1), q, i - 1);
        assert(f.take(i + 1).skip(1) =~= f.skip(1).take(i));
        assert(f.take(i).skip(1) =~= f.skip(1).take(i - 1));
        assert(f.skip(1)[i - 1] == f[i]);
        let head = (if answers(f[0].text, q) {
            seq![(f[0].uid, f[0].text)]
        } else {
            Seq::<(Seq<char>, Seq<char>)>::empty()
        }) + matches(f[0].children, q);
        assert(matches(f.take(i + 1), q) =~= head + matches(f.skip(1).take(i), q));
        assert(matches(f.take(i), q) =~= head + matches(f.skip(1).take(i - 1), q));
        assert(matches(f.take(i + 1), q) =~= matches(f.take(i), q) + own + matches(
            f[i].children,
            q,
        ));
    }
}

/// The answers of a list are those of its first `i` blocks, then those of
/// the rest.
pub proof fn lemma_matches_split(f: Seq<BlockView>, q: Seq<char>, i: int)
    requires
        0 <= i <= f.len(),
    ensures
        matches(f, q) == matches(f.take(i), q) + matches(f.skip(i), q),
    decreases i,
{
    if i == 0 {
        assert(f.take(0) =~= Seq::<BlockView>::empty());
        assert(f.skip(0) =~= f);
        assert(matches(f.take(0), q) + matches(f, q) =~= matches(f, q));
    } else {
        lemma_matches_split(f.skip(1), q, i - 1);
        assert(f.take(i).skip(1) =~= f.skip(1).take(i - 1));
        assert(f.skip(1).skip(i - 1) =~= f.skip(i));
        let head = (if answers(f[0].text, q) {
            seq![(f[0].uid, f[0].text)]
        } else {
            Seq::<(Seq<char>, Seq<char>)>::empty()
        }) + matches(f[0].children, q);
        assert(matches(f.take(i), q) =~= head + matches(f.skip(1).take(i - 1), q));
        assert(matches(f, q) =~= head + matches(f.skip(1), q));
        assert(matches(f, q) =~= matches(f.take(i), q) + matches(f.skip(i), q));
    }
}

pub proof fn lemma_matches_days_split(days: Seq<DailyNoteView>, q: Seq<char>, i: int)
    requires
        0 <= i <= days.len(),
    ensures
        matches_in_days(days, q) == matches_in_days(days.take(i), q) + matches_in_days(
            days.skip(i),
            q,
        ),
        i < days.len() ==> matches_in_days(days.take(i + 1), q) == matches_in_days(days.take(i), q)
            + matches(days[i].blocks, q),
    decreases i,
{
    if i == 0 {
        assert(days.take(0) =~= Seq::<DailyNoteView>::empty());
        assert(days.skip(0) =~= days);
        assert(matches_in_days(days.take(0), q) + matches_in_days(days, q) =~= matches_in_days(
            days,
            q,
        ));
        if days.len() > 0 {
            assert(days.take(1).skip(1) =~= Seq::<DailyNoteView>::empty());
            assert(matches_in_days(days.take(1), q) =~= matches(days[0].blocks, q));
            assert(matches_in_days(days.take(0), q) + matches(days[0].blocks, q) =~= matches(
                days[0].blocks,
                q,
            ));
        }
    } else {
        lemma_matches_days_split(days.skip(1), q, i - 1);
        assert(days.take(i).skip(1) =~= days.skip(1).take(i - 1));
        assert(days.skip(1).skip(i - 1) =~= days.skip(i));
        let head = matches(days[0].blocks, q);
        assert(matches_in_days(days.take(i), q) =~= head + matches_in_days(
            days.skip(1).take(i - 1),
            q,
        ));
        assert(matches_in_days(days, q) =~= matches_in_days(days.take(i), q) + matches_in_days(
            days.skip(i),
            q,
        ));
        if i < days.len() {
            assert(days.take(i + 1).skip(1) =~= days.skip(1).take(i));
            assert(days.skip(1)[i - 1] == days[i]);
            assert(matches_in_days(days.take(i + 1), q) =~= head + matches_in_days(
                days.skip(1).take(i),
                q,
            ));
            assert(matches_in_days(days.take(i + 1), q) =~= matches_in_days(days.take(i), q)
                + matches(days[i].blocks, q));
        }
    }
}

pub proof fn lemma_pairs_push(v: Seq<(String, String)>, a: String, b: String)
    ensures
        pairs_view(v.push((a, b))) == pairs_view(v).push((a@, b@)),
        pairs_view(v).len() == v.len(),
{
    assert(pairs_view(v.push((a, b))) =~= pairs_view(v).push((a@, b@)));
}

/// Whether one of `results` has `uid` as its first part.
pub fn results_have(results: &Vec<(String, String)>, uid: &str) -> (r: bool)
    ensures
        r == has_uid(pairs_view(results@), uid@),
{
    let mut i: usize = 0;
    while i < results.len()
        invariant
            i <= results.len(),
            forall|j: int| 0 <= j < i ==> pairs_view(results@)[j].0 != uid@,
        decreases results.len() - i,
    {
        if str_eq(results[i].0.as_str(), uid) {
            assert(pairs_view(results@)[i as int].0 == uid@);
            return true;
        }
        i += 1;
    }
    false
}

/// What a search for `query_lower` offers among the blocks of `days` and the
/// texts of `cache`; `query_lower` is a query in lower case.
pub fn filter_blocks_lower(
    days: &Vec<DailyNote>,
    cache: &StringMap<String>,
    query_lower: &str,
    limit: usize,
) -> (results: Vec<(String, String)>)
    ensures
        pairs_view(results@) == found(days_view(days@), cache@, query_lower@, limit as nat),
        results.len() <= limit,
{
    let ghost d = days_view(days@);
    let ghost q = query_lower@;
    let mut results: Vec<(String, String)> = Vec::new();
    let mut i: usize = 0;
    proof {
        assert(d.take(0) =~= Seq::<DailyNoteView>::empty());
        assert(pairs_view(results@) =~= capped(matches_in_days(d.take(0), q), limit as nat));
    }
    while i < days.len() && results.len() < limit
        invariant
            i <= days.len(),
            d == days_view(days@),
            q == query_lower@,
            results.len() <= limit,
            pairs_view(results@) == capped(matches_in_days(d.take(i as int), q), limit as nat),
        decreases days.len() - i,
    {
        proof {
            lemma_matches_days_split(d, q, i as int);
            lemma_capped_more(
                matches_in_days(d.take(i as int), q),
                matches(d[i as int].blocks, q),
                limit as nat,
            );
        }
        collect_matching_blocks(&days[i].blocks, query_lower, &mut results, limit);
        i += 1;
    }
    proof {
        assert(pairs_view(results@).len() == results.len());
        if i == days.len() {
            assert(d.take(i as int) =~= d);
        } else {
            assert(matches_in_days(d.take(i as int), q).len() >= limit);
            lemma_matches_days_split(d, q, i as int);
            lemma_capped_more(
                matches_in_days(d.take(i as int), q),
                matches_in_days(d.skip(i as int), q),
                limit as nat,
            );
        }
        assert(pairs_view(results@) == capped(matches_in_days(d, q), limit as nat));
    }
    let ghost c = cache@;
    let ghost from_days = pairs_view(results@);
    let mut k: usize = 0;
    proof {
        assert(c.skip(0) =~= c);
    }
    while k < cache.entries.len() && results.len() < limit
        invariant
            k <= cache.entries.len(),
            c == cache@,
            c.len() == cache.entries.len(),
            q == query_lower@,
            results.len() <= limit,
            with_cached(from_days, c, q, limit as nat) == with_cached(
                pairs_view(results@),
                c.skip(k as int),
                q,
                limit as nat,
            ),
        decreases cache.entries.len() - k,
    {
        proof {
            assert(c.skip(k as int).skip(1) =~= c.skip(k + 1));
            assert(c.skip(k as int)[0] == c[k as int]);
            assert(pairs_view(results@).len() == results.len());
        }
        if text_answers(cache.entries[k].1.as_str(), query_lower) && !results_have(
            &results,
            cache.entries[k].0.as_str(),
        ) {
            let ghost before = results@;
            let uid = cache.entries[k].0.clone();
            let text = cache.entries[k].1.clone();
            results.push((uid, text));
            proof {
                lemma_pairs_push(before, uid, text);
            }
        }
        k += 1;
    }
    proof {
        assert(pairs_view(results@).len() == results.len());
        if k == cache.entries.len() {
            assert(c.skip(k as int) =~= Seq::<(Seq<char>, Seq<char>)>::empty());
        }
    }
    results
}

/// What a search for `query` offers: the blocks of `days` that answer it,
/// then the texts of `cache` that do and are not yet offered, `limit` in all
/// at most. Upper and lower case are taken as the same.
pub fn filter_blocks(
    days: &Vec<DailyNote>,
    cache: &StringMap<String>,
    query: &str,
    limit: usize,
) -> (results: Vec<(String, String)>)
    ensures
        pairs_view(results@) == found(days_view(days@), cache@, lowercase(query@), limit as nat),
        results.len() <= limit,
{
    let query_lower = to_lowercase(query);
    filter_blocks_lower(days, cache, query_lower.as_str(), limit)
}

/// The titles chosen while `titles` are read for the query `query` (in lower
/// case): `first` those that begin with it, `later` those that hold it
/// elsewhere. The reading stops once `limit` titles are chosen.
pub open spec fn sorted_titles(
    titles: Seq<(Seq<char>, Seq<char>)>,
    query: Seq<char>,
    limit: nat,
    first: Seq<(Seq<char>, Seq<char>)>,
    later: Seq<(Seq<char>, Seq<char>)>,
) -> (Seq<(Seq<char>, Seq<char>)>, Seq<(Seq<char>, Seq<char>)>)
    decreases titles.len(),
{
    if titles.len() == 0 {
        (first, later)
    } else {
        let lower = lowercase(titles[0].0);
        let first2 = if begins_with(lower, query) {
            first.push(titles[0])
        } else {
            first
        };
        let later2 = if !begins_with(lower, query) && occurs_in(query, lower) {
            later.push(titles[0])
        } else {
            later
        };
        if first2.len() + later2.len() >= limit {
            (first2, later2)
        } else {
            sorted_titles(titles.skip(1), query, limit, first2, later2)
        }
    }
}

/// The pages offered for `query`, which is in lower case and not empty:
/// those whose title begins with it before those whose title holds it
/// elsewhere, `limit` at most.
pub open spec fn ranked_titles(titles: Seq<(Seq<char>, Seq<char>)>, query: Seq<char>, limit: nat) -> Seq<
    (Seq<char>, Seq<char>),
> {
    let parts = sorted_titles(titles, query, limit, Seq::empty(), Seq::empty());
    capped(parts.0 + parts.1, limit)
}

/// The pages offered for `query`: the first `limit` of all for the empty
/// query, else [`ranked_titles`] for its lower-case form.
pub open spec fn titles_found(titles: Seq<(Seq<char>, Seq<char>)>, query: Seq<char>, limit: nat) -> Seq<
    (Seq<char>, Seq<char>),
> {
    if query.len() == 0 {
        capped(titles, limit)
    } else {
        ranked_titles(titles, lowercase(query), limit)
    }
}

/// The pages of `titles` (pairs of title and uid) offered for `query`: the
/// first `limit` of all for the empty query; else those whose title begins
/// with it before those whose title holds it elsewhere, `limit` at most.
/// Upper and lower case are taken as the same.
pub fn filter_page_titles(titles: &Vec<(String, String)>, query: &str, limit: usize) -> (results: Vec<
    (String, String),
>)
    ensures
        pairs_view(results@) == titles_found(pairs_view(titles@), query@, limit as nat),
{
    let ghost t = pairs_view(titles@);
    if query.is_empty() {
        let mut out: Vec<(String, String)> = Vec::new();
        let mut i: usize = 0;
        while i < titles.len() && i < limit
            invariant
                i <= titles.len(),
                i <= limit,
                t == pairs_view(titles@),
                pairs_view(out@) == t.take(i as int),
            decreases titles.len() - i,
        {
            let ghost before = out@;
            let title = titles[i].0.clone();
            let uid = titles[i].1.clone();
            out.push((title, uid));
            proof {
                lemma_pairs_push(before, title, uid);
                assert(pairs_view(out@) =~= t.take(i + 1));
            }
            i += 1;
        }
        proof {
            assert(t.take(t.len() as int) =~= t);
        }
        return out;
    }
    let query_lower = to_lowercase(query);
    rank_page_titles(titles, query_lower.as_str(), limit)
}

/// The pages of `titles` offered for `query_lower`, a query in lower case:
/// those whose title begins with it before those whose title holds it
/// elsewhere, `limit` at most.
pub fn rank_page_titles(titles: &Vec<(String, String)>, query_lower: &str, limit: usize) -> (results: Vec<
    (String, String),
>)
    ensures
        pairs_view(results@) == ranked_titles(pairs_view(titles@), query_lower@, limit as nat),
{
    let ghost t = pairs_view(titles@);
    let ghost q = query_lower@;
    let mut prefix_matches: Vec<(String, String)> = Vec::new();
    let mut contains_matches: Vec<(String, String)> = Vec::new();
    let mut i: usize = 0;
    proof {
        assert(t.skip(0) =~= t);
        assert(pairs_view(prefix_matches@) =~= Seq::<(Seq<char>, Seq<char>)>::empty());
        assert(pairs_view(contains_matches@) =~= Seq::<(Seq<char>, Seq<char>)>::empty());
    }
    while i < titles.len()
        invariant_except_break
            sorted_titles(t, q, limit as nat, Seq::empty(), Seq::empty()) == sorted_titles(
                t.skip(i as int),
                q,
                limit as nat,
                pairs_view(prefix_matches@),
                pairs_view(contains_matches@),
            ),
        invariant
            i <= titles.len(),
            t == pairs_view(titles@),
            q == query_lower@,
        ensures
            sorted_titles(t, q, limit as nat, Seq::empty(), Seq::empty()) == (
                pairs_view(prefix_matches@),
                pairs_view(contains_matches@),
            ),
        decreases titles.len() - i,
    {
        proof {
            assert(t.skip(i as int).skip(1) =~= t.skip(i + 1));
            assert(t.skip(i as int)[0] == t[i as int]);
        }
        let ghost p0 = pairs_view(prefix_matches@);
        let ghost c0 = pairs_view(contains_matches@);
        let title_lower = to_lowercase(titles[i].0.as_str());
        let title = titles[i].0.clone();
        let uid = titles[i].1.clone();
        if str_starts_with(title_lower.as_str(), query_lower) {
            let ghost before = prefix_matches@;
            prefix_matches.push((title, uid));
            proof {
                lemma_pairs_push(before, title, uid);
            }
        } else if str_contains(title_lower.as_str(), query_lower) {
            let ghost before = contains_matches@;
            contains_matches.push((title, uid));
            proof {
                lemma_pairs_push(before, title, uid);
            }
        }
        i += 1;
        proof {
            assert(pairs_view(prefix_matches@).len() == prefix_matches.len());
            assert(pairs_view(contains_matches@).len() == contains_matches.len());
        }
        let total = prefix_matches.len() as u128 + contains_matches.len() as u128;
        if total >= limit as u128 {
            break ;
        }
    }
    let ghost first = pairs_view(prefix_matches@);
    let ghost later = pairs_view(contains_matches@);
    prefix_matches.append(&mut contains_matches);
    proof {
        assert(pairs_view(prefix_matches@) =~= first + later);
    }
    let ghost joined = prefix_matches@;
    prefix_matches.truncate(limit);
    proof {
        assert(pairs_view(prefix_matches@) =~= capped(pairs_view(joined), limit as nat));
    }
    prefix_matches
}

} // verus!
