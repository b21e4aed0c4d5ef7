use crate::maps::{lookup, member, StringMap, StringSet};
use crate::markdown::{
    build_block_text_map, embed_uid, embed_uid_in, find_double_delimiter, find_single_delimiter,
    first_double, first_single, lemma_first_double, lemma_first_single, texts_of_days,
};
use crate::state::AppState;
use crate::text::{from_chars, to_chars};
use crate::types::{forest_view, strings_view, Block, BlockView, DailyNoteView};
use vstd::prelude::*;

verus! {

/// Whether the text of the block `uid` is at hand or already asked for.
pub open spec fn known(
    uid: Seq<char>,
    local: Seq<(Seq<char>, Seq<char>)>,
    cache: Seq<(Seq<char>, Seq<char>)>,
    pending: Seq<Seq<char>>,
) -> bool {
    lookup(local, uid) is Some || lookup(cache, uid) is Some || member(pending, uid)
}

/// The reference `((uid))` that begins at `i`, where the first `)` after
/// its start is followed by another: the uid and the place after it.
pub open spec fn block_ref_at(chars: Seq<char>, i: int) -> Option<(Seq<char>, int)> {
    if 0 <= i && i + 1 < chars.len() && chars[i] == '(' && chars[i + 1] == '(' {
        match first_single(chars, i + 2, ')') {
            Some(k) => {
                let pos = i + 2 + k;
                if pos + 1 < chars.len() && chars[pos + 1] == ')' {
                    Some((chars.subrange(i + 2, pos), pos + 2))
                } else {
                    None
                }
            },
            None => None,
        }
    } else {
        None
    }
}

/// The mark in double braces that begins at `i`: the uid of the block it
/// embeds, if it embeds one, and the place after it.
pub open spec fn embed_at(chars: Seq<char>, i: int) -> Option<(Option<Seq<char>>, int)> {
    if 0 <= i && i + 1 < chars.len() && chars[i] == '{' && chars[i + 1] == '{' {
        match first_double(chars, i + 2, '}') {
            Some(k) => Some((embed_uid(chars.subrange(i + 2, i + 2 + k)), i + 2 + k + 2)),
            None => None,
        }
    } else {
        None
    }
}

/// `acc` with `uid` added, unless its text is at hand or asked for.
pub open spec fn with_unknown(
    acc: Seq<Seq<char>>,
    uid: Seq<char>,
    local: Seq<(Seq<char>, Seq<char>)>,
    cache: Seq<(Seq<char>, Seq<char>)>,
    pending: Seq<Seq<char>>,
) -> Seq<Seq<char>> {
    if known(uid, local, cache, pending) {
        acc
    } else {
        acc.push(uid)
    }
}

/// The uids of the blocks that the text refers to or embeds from position
/// `i` on and whose text is neither at hand nor asked for, after those of
/// `acc`. The last three characters of a text begin no reference.
pub open spec fn uids_from(
    chars: Seq<char>,
    i: int,
    local: Seq<(Seq<char>, Seq<char>)>,
    cache: Seq<(Seq<char>, Seq<char>)>,
    pending: Seq<Seq<char>>,
    acc: Seq<Seq<char>>,
) -> Seq<Seq<char>>
    decreases chars.len() - i,
{
    if i < 0 || i + 3 >= chars.len() {
        acc
    } else {
        match block_ref_at(chars, i) {
            Some(r) => {
                proof {
                    lemma_first_single(chars, i + 2, ')');
                }
                uids_from(
                    chars,
                    r.1,
                    local,
                    cache,
                    pending,
                    if r.0.len() > 0 {
                        with_unknown(acc, r.0, local, cache, pending)
                    } else {
                        acc
                    },
                )
            },
            None => match embed_at(chars, i) {
                Some(e) => {
                    proof {
                        lemma_first_double(chars, i + 2, '}');
                    }
                    uids_from(
                        chars,
                        e.1,
                        local,
                        cache,
                        pending,
                        match e.0 {
                            Some(uid) => with_unknown(acc, uid, local, cache, pending),
                            None => acc,
                        },
                    )
                },
                None => uids_from(chars, i + 1, local, cache, pending, acc),
            },
        }
    }
}

/// The uid of the block that the embed `inner` refers to, where it refers
/// to one in the form `((uid))`.
pub fn extract_embed_uid(inner: &str) -> (r: Option<String>)
    ensures
        match r {
            Some(u) => embed_uid(inner@) == Some(u@),
            None => embed_uid(inner@) is None,
        },
{
    let chars = to_chars(inner);
    assert(chars@.subrange(0, chars@.len() as int) =~= inner@);
    embed_uid_in(&chars, 0, chars.len())
}

/// Whether the text of the block `uid` is at hand or already asked for.
pub fn is_known(
    uid: &str,
    local_map: &StringMap<String>,
    cache: &StringMap<String>,
    pending: &StringSet,
) -> (r: bool)
    ensures
        r == known(uid@, local_map@, cache@, pending@),
{
    local_map.contains_key(uid) || cache.contains_key(uid) || pending.contains(uid)
}

/// Adds to `out` the uids of the blocks that `text` refers to or embeds and
/// whose text is neither in `local_map` nor in `cache` nor asked for.
pub fn extract_uids_from_text(
    text: &str,
    local_map: &StringMap<String>,
    cache: &StringMap<String>,
    pending: &StringSet,
    out: &mut Vec<String>,
)
    ensures
        strings_view(final(out)@) == uids_from(
            text@,
            0,
            local_map@,
            cache@,
            pending@,
            strings_view(old(out)@),
        ),
{
    let chars = to_chars(text);
    let len = chars.len();
    let ghost local = local_map@;
    let ghost cached = cache@;
    let ghost asked = pending@;
    let mut i: usize = 0;
    while i < len && len - i > 3
        invariant
            len == chars.len(),
            chars@ == text@,
            local == local_map@,
            cached == cache@,
            asked == pending@,
            uids_from(chars@, 0, local, cached, asked, strings_view(old(out)@)) == uids_from(
                chars@,
                i as int,
                local,
                cached,
                asked,
                strings_view(out@),
            ),
        decreases len - i,
    {
        let ghost before = strings_view(out@);
        if chars[i] == '(' && chars[i + 1] == '(' {
            match find_single_delimiter(&chars, i + 2, ')') {
                Some(pos) => {
                    if pos + 1 < len && chars[pos + 1] == ')' {
                        let uid = from_chars(&chars, i + 2, pos);
                        if !uid.as_str().is_empty() && !is_known(
                            uid.as_str(),
                            local_map,
                            cache,
                            pending,
                        ) {
                            out.push(uid);
                            assert(strings_view(out@) =~= before.push(uid@));
                        }
                        i = pos + 2;
                        continue ;
                    }
                },
                None => {},
            }
        }
        if chars[i] == '{' && chars[i + 1] == '{' {
            match find_double_delimiter(&chars, i + 2, '}') {
                Some(end) => {
                    match embed_uid_in(&chars, i + 2, end) {
                        Some(uid) => {
                            if !is_known(uid.as_str(), local_map, cache, pending) {
                                out.push(uid);
                                assert(strings_view(out@) =~= before.push(uid@));
                            }
                        },
                        None => {},
                    }
                    i = end + 2;
                    continue ;
                },
                None => {},
            }
        }
        i += 1;
    }
}

/// The uids that the texts of the blocks of `f` refer to and that are not
/// known, after those of `acc`: each block before its sub-blocks and those
/// before its later siblings.
pub open spec fn refs_from(
    f: Seq<BlockView>,
    local: Seq<(Seq<char>, Seq<char>)>,
    cache: Seq<(Seq<char>, Seq<char>)>,
    pending: Seq<Seq<char>>,
    acc: Seq<Seq<char>>,
) -> Seq<Seq<char>>
    decreases f,
{
    if f.len() == 0 {
        acc
    } else {
        refs_from(
            f.skip(1),
            local,
            cache,
            pending,
            refs_from(
                f[0].children,
                local,
                cache,
                pending,
                uids_from(f[0].text, 0, local, cache, pending, acc),
            ),
        )
    }
}

/// The uids that the texts of the blocks of all pages refer to and that are
/// not known, after those of `acc`.
pub open spec fn refs_from_days(
    days: Seq<DailyNoteView>,
    local: Seq<(Seq<char>, Seq<char>)>,
    cache: Seq<(Seq<char>, Seq<char>)>,
    pending: Seq<Seq<char>>,
    acc: Seq<Seq<char>>,
) -> Seq<Seq<char>>
    decreases days.len(),
{
    if days.len() == 0 {
        acc
    } else {
        refs_from_days(
            days.skip(1),
            local,
            cache,
            pending,
            refs_from(days[0].blocks, local, cache, pending, acc),
        )
    }
}

/// Adds to `out` the uids that the texts of `blocks` refer to and that are
/// not known.
pub fn collect_refs_from_blocks(
    blocks: &Vec<Block>,
    local_map: &StringMap<String>,
    cache: &StringMap<String>,
    pending: &StringSet,
    out: &mut Vec<String>,
)
    ensures
        strings_view(final(out)@) == refs_from(
            forest_view(blocks@),
            local_map@,
            cache@,
            pending@,
            strings_view(old(out)@),
        ),
    decreases blocks@,
{
    let ghost f = forest_view(blocks@);
    let mut i: usize = 0;
    proof {
        assert(f.skip(0) =~= f);
    }
    while i < blocks.len()
        invariant
            i <= blocks.len(),
            f == forest_view(blocks@),
            f.len() == blocks.len(),
            refs_from(f, local_map@, cache@, pending@, strings_view(old(out)@)) == refs_from(
                f.skip(i as int),
                local_map@,
                cache@,
                pending@,
                strings_view(out@),
            ),
        decreases blocks.len() - i,
    {
        proof {
            crate::blocks::lemma_skip_step(f, i as int);
            crate::blocks::lemma_view_index(blocks@, i as int);
            assert(f[i as int].text == blocks@[i as int].string@);
        }
        extract_uids_from_text(blocks[i].string.as_str(), local_map, cache, pending, out);
        collect_refs_from_blocks(&blocks[i].children, local_map, cache, pending, out);
        i += 1;
    }
}

/// The uids of the blocks that the pages refer to and whose text is neither
/// that of a block of the pages, nor cached, nor asked for.
pub fn collect_unresolved_refs(state: &AppState) -> (r: Vec<String>)
    ensures
        strings_view(r@) == refs_from_days(
            state@.days,
            texts_of_days(state@.days, Seq::empty()),
            state@.block_ref_cache,
            state@.pending_block_refs,
            Seq::empty(),
        ),
{
    let local_map = build_block_text_map(&state.days);
    let ghost d = state@.days;
    let mut unresolved: Vec<String> = Vec::new();
    let mut i: usize = 0;
    proof {
        assert(d.skip(0) =~= d);
        assert(strings_view(unresolved@) =~= Seq::<Seq<char>>::empty());
    }
    while i < state.days.len()
        invariant
            i <= state.days.len(),
            d == state@.days,
            d.len() == state.days.len(),
            local_map@ == texts_of_days(d, Seq::empty()),
            refs_from_days(
                d,
                local_map@,
                state@.block_ref_cache,
                state@.pending_block_refs,
                Seq::empty(),
            ) == refs_from_days(
                d.skip(i as int),
                local_map@,
                state@.block_ref_cache,
                state@.pending_block_refs,
                strings_view(unresolved@),
            ),
        decreases state.days.len() - i,
    {
        proof {
            crate::blocks::lemma_skip_step(d, i as int);
        }
        collect_refs_from_blocks(
            &state.days[i].blocks,
            &local_map,
            &state.block_ref_cache,
            &state.pending_block_refs,
            &mut unresolved,
        );
        i += 1;
    }
    unresolved
}

} // verus!
