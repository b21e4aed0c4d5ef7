use crate::blocks::{lemma_skip_step, lemma_view_index};
use crate::doc::{
    can_dedent, doc_dedent, doc_insert, doc_remove, first_day, flat_count, group_rows, holds,
    lemma_first_day_is, refs_rows, section_rows, takes, total_rows, with_blocks,
};
use crate::maps::StringMap;
use crate::state::{AppState, AppStateView, InputMode, InputView, LinkedRefsState, LinkedRefsView};
use crate::tree::{
    contains, dedent, dedent_below, insert_pos, parent_pos, remove, remove_below, rows,
    sibling_pos, size, update_first, visible_count, with_child,
};
use crate::types::{days_view, forest_view, Block, BlockView, DailyNote, DailyNoteView};
use vstd::prelude::*;

verus! {

/// Number of blocks of all pages, at every depth, together with the rows of
/// their references: no fewer than the rows that can ever be shown of them.
pub open spec fn doc_size(days: Seq<DailyNoteView>, lr: Seq<(Seq<char>, LinkedRefsView)>) -> nat
    decreases days.len(),
{
    if days.len() == 0 {
        0
    } else {
        size(days[0].blocks) + refs_rows(lr, days[0].title) + doc_size(days.skip(1), lr)
    }
}

/// The blocks of two lists put together are as many as those of both.
pub proof fn lemma_size_concat(a: Seq<BlockView>, b: Seq<BlockView>)
    ensures
        size(a + b) == size(a) + size(b),
    decreases a.len(),
{
    if a.len() == 0 {
        assert(a + b =~= b);
    } else {
        lemma_size_concat(a.skip(1), b);
        assert((a + b).skip(1) =~= a.skip(1) + b);
        assert((a + b)[0] == a[0]);
    }
}

pub proof fn lemma_size_one(b: BlockView)
    ensures
        size(seq![b]) == 1 + size(b.children),
{
    assert(seq![b].skip(1) =~= Seq::<BlockView>::empty());
    assert(size(seq![b].skip(1)) == 0);
}

/// The blocks of a list, with the block at `k` counted apart.
pub proof fn lemma_size_split(f: Seq<BlockView>, k: int)
    requires
        0 <= k < f.len(),
    ensures
        size(f) == size(f.take(k)) + 1 + size(f[k].children) + size(f.skip(k + 1)),
{
    lemma_size_one(f[k]);
    lemma_size_concat(f.take(k), seq![f[k]]);
    lemma_size_concat(f.take(k) + seq![f[k]], f.skip(k + 1));
    assert(f.take(k) + seq![f[k]] + f.skip(k + 1) =~= f);
}

pub proof fn lemma_size_remove(f: Seq<BlockView>, k: int)
    requires
        0 <= k < f.len(),
    ensures
        size(f.remove(k)) + 1 + size(f[k].children) == size(f),
{
    lemma_size_split(f, k);
    lemma_size_concat(f.take(k), f.skip(k + 1));
    assert(f.remove(k) =~= f.take(k) + f.skip(k + 1));
}

pub proof fn lemma_size_insert(f: Seq<BlockView>, k: int, b: BlockView)
    requires
        0 <= k <= f.len(),
    ensures
        size(f.insert(k, b)) == size(f) + 1 + size(b.children),
{
    let g = f.insert(k, b);
    lemma_size_split(g, k);
    assert(g.take(k) =~= f.take(k));
    assert(g.skip(k + 1) =~= f.skip(k));
    lemma_size_concat(f.take(k), f.skip(k));
    assert(f.take(k) + f.skip(k) =~= f);
}

pub proof fn lemma_size_update(f: Seq<BlockView>, k: int, b: BlockView)
    requires
        0 <= k < f.len(),
    ensures
        size(f.update(k, b)) + size(f[k].children) == size(f) + size(b.children),
{
    let g = f.update(k, b);
    lemma_size_split(g, k);
    lemma_size_split(f, k);
    assert(g.take(k) =~= f.take(k));
    assert(g.skip(k + 1) =~= f.skip(k + 1));
}

/// No more rows are shown of a list than it has blocks.
pub proof fn lemma_visible_le_size(f: Seq<BlockView>)
    ensures
        visible_count(f) <= size(f),
    decreases f,
{
    if f.len() > 0 {
        lemma_visible_le_size(f[0].children);
        lemma_visible_le_size(f.skip(1));
        assert(rows(f[0]) <= 1 + size(f[0].children));
    }
}

pub proof fn lemma_sibling_pos_range(f: Seq<BlockView>, uid: Seq<char>)
    ensures
        sibling_pos(f, uid) matches Some(k) ==> 0 <= k < f.len(),
    decreases f.len(),
{
    if f.len() > 0 && f[0].uid != uid {
        lemma_sibling_pos_range(f.skip(1), uid);
    }
}

/// Taking a block out leaves no more blocks than there were.
pub proof fn lemma_remove_size(f: Seq<BlockView>, uid: Seq<char>)
    ensures
        size(remove(f, uid)) <= size(f),
        size(remove_below(f, uid)) <= size(f),
    decreases f, 2int,
{
    lemma_sibling_pos_range(f, uid);
    match sibling_pos(f, uid) {
        Some(k) => {
            lemma_size_remove(f, k);
        },
        None => {},
    }
    lemma_remove_below_size(f, uid);
}

pub proof fn lemma_remove_below_size(f: Seq<BlockView>, uid: Seq<char>)
    ensures
        size(remove_below(f, uid)) <= size(f),
    decreases f, 1int,
{
    if f.len() > 0 {
        if contains(f[0].children, uid) {
            lemma_remove_size(f[0].children, uid);
            lemma_size_update(f, 0, BlockView { children: remove(f[0].children, uid), ..f[0] });
        } else {
            lemma_remove_below_size(f.skip(1), uid);
            lemma_size_one(f[0]);
            lemma_size_concat(seq![f[0]], remove_below(f.skip(1), uid));
        }
    }
}

pub proof fn lemma_insert_pos_range(f: Seq<BlockView>, order: int)
    ensures
        0 <= insert_pos(f, order) <= f.len(),
    decreases f.len(),
{
    if f.len() > 0 && f[0].order < order {
        lemma_insert_pos_range(f.skip(1), order);
    }
}

/// Putting a block in adds at most the blocks it brings.
pub proof fn lemma_insert_size(f: Seq<BlockView>, parent: Seq<char>, order: int, b: BlockView)
    ensures
        size(update_first(f, parent, with_child(order, b))) <= size(f) + 1 + size(b.children),
    decreases f,
{
    let g = with_child(order, b);
    if f.len() > 0 {
        if f[0].uid == parent {
            lemma_insert_pos_range(f[0].children, order);
            lemma_size_insert(f[0].children, insert_pos(f[0].children, order), b);
            lemma_size_update(f, 0, g(f[0]));
        } else if contains(f[0].children, parent) {
            lemma_insert_size(f[0].children, parent, order, b);
            lemma_size_update(
                f,
                0,
                BlockView { children: update_first(f[0].children, parent, g), ..f[0] },
            );
        } else {
            lemma_insert_size(f.skip(1), parent, order, b);
            lemma_size_one(f[0]);
            lemma_size_concat(seq![f[0]], update_first(f.skip(1), parent, g));
        }
    }
}

pub proof fn lemma_parent_pos_range(f: Seq<BlockView>, uid: Seq<char>)
    ensures
        parent_pos(f, uid) matches Some(k) ==> 0 <= k < f.len() && sibling_pos(f[k].children, uid)
            is Some,
    decreases f.len(),
{
    if f.len() > 0 && sibling_pos(f[0].children, uid) is None {
        lemma_parent_pos_range(f.skip(1), uid);
    }
}

/// A dedent keeps the number of blocks.
pub proof fn lemma_dedent_size(f: Seq<BlockView>, owner: Seq<char>, uid: Seq<char>)
    ensures
        dedent(f, owner, uid) matches Some(r) ==> size(r.0) == size(f),
        dedent_below(f, uid) matches Some(r) ==> size(r.0) == size(f),
    decreases f, 2int,
{
    lemma_parent_pos_range(f, uid);
    match parent_pos(f, uid) {
        Some(p) => {
            lemma_sibling_pos_range(f[p].children, uid);
            let c = sibling_pos(f[p].children, uid).unwrap();
            let parent = f[p];
            let moved = BlockView { order: parent.order + 1, ..parent.children[c] };
            let shrunk = BlockView { children: parent.children.remove(c), ..parent };
            lemma_size_remove(parent.children, c);
            lemma_size_update(f, p, shrunk);
            lemma_size_insert(f.update(p, shrunk), p + 1, moved);
        },
        None => {},
    }
    lemma_dedent_below_size(f, uid);
}

pub proof fn lemma_dedent_below_size(f: Seq<BlockView>, uid: Seq<char>)
    ensures
        dedent_below(f, uid) matches Some(r) ==> size(r.0) == size(f),
    decreases f, 1int,
{
    if f.len() > 0 {
        match dedent(f[0].children, f[0].uid, uid) {
            Some((c, p, o)) => {
                lemma_dedent_size(f[0].children, f[0].uid, uid);
                lemma_size_update(f, 0, BlockView { children: c, ..f[0] });
            },
            None => {
                lemma_dedent_below_size(f.skip(1), uid);
                match dedent_below(f.skip(1), uid) {
                    Some((r, p, o)) => {
                        lemma_size_one(f[0]);
                        lemma_size_concat(seq![f[0]], r);
                    },
                    None => {},
                }
            },
        }
    }
}

/// No more rows are shown of the pages than [`doc_size`] counts.
pub proof fn lemma_rows_le_size(days: Seq<DailyNoteView>, lr: Seq<(Seq<char>, LinkedRefsView)>)
    ensures
        flat_count(days) <= total_rows(days, lr) <= doc_size(days, lr),
    decreases days.len(),
{
    if days.len() > 0 {
        lemma_visible_le_size(days[0].blocks);
        lemma_rows_le_size(days.skip(1), lr);
    }
}

/// [`doc_size`] after the blocks of page `i` have been replaced.
pub proof fn lemma_doc_size_update(
    days: Seq<DailyNoteView>,
    lr: Seq<(Seq<char>, LinkedRefsView)>,
    i: int,
    blocks: Seq<BlockView>,
)
    requires
        0 <= i < days.len(),
    ensures
        doc_size(days.update(i, with_blocks(days[i], blocks)), lr) + size(days[i].blocks)
            == doc_size(days, lr) + size(blocks),
    decreases i,
{
    let after = days.update(i, with_blocks(days[i], blocks));
    if i == 0 {
        assert(after.skip(1) =~= days.skip(1));
    } else {
        lemma_doc_size_update(days.skip(1), lr, i - 1, blocks);
        assert(after.skip(1) =~= days.skip(1).update(
            i - 1,
            with_blocks(days.skip(1)[i - 1], blocks),
        ));
    }
}

pub proof fn lemma_doc_remove_size(
    days: Seq<DailyNoteView>,
    lr: Seq<(Seq<char>, LinkedRefsView)>,
    uid: Seq<char>,
)
    ensures
        doc_size(doc_remove(days, uid), lr) <= doc_size(days, lr),
{
    lemma_first_day_is(days, holds(uid));
    match first_day(days, holds(uid)) {
        Some(i) => {
            lemma_remove_size(days[i].blocks, uid);
            lemma_doc_size_update(days, lr, i, remove(days[i].blocks, uid));
        },
        None => {},
    }
}

pub proof fn lemma_doc_insert_size(
    days: Seq<DailyNoteView>,
    lr: Seq<(Seq<char>, LinkedRefsView)>,
    parent: Seq<char>,
    order: int,
    b: BlockView,
)
    ensures
        doc_size(doc_insert(days, parent, order, b), lr) <= doc_size(days, lr) + 1 + size(
            b.children,
        ),
{
    lemma_first_day_is(days, takes(parent));
    match first_day(days, takes(parent)) {
        Some(i) => {
            if days[i].uid == parent {
                lemma_insert_pos_range(days[i].blocks, order);
                lemma_size_insert(days[i].blocks, insert_pos(days[i].blocks, order), b);
                lemma_doc_size_update(
                    days,
                    lr,
                    i,
                    days[i].blocks.insert(insert_pos(days[i].blocks, order), b),
                );
            } else {
                lemma_insert_size(days[i].blocks, parent, order, b);
                lemma_doc_size_update(
                    days,
                    lr,
                    i,
                    update_first(days[i].blocks, parent, with_child(order, b)),
                );
            }
        },
        None => {},
    }
}

pub proof fn lemma_doc_dedent_size(
    days: Seq<DailyNoteView>,
    lr: Seq<(Seq<char>, LinkedRefsView)>,
    uid: Seq<char>,
)
    ensures
        doc_dedent(days, uid) matches Some(r) ==> doc_size(r.0, lr) == doc_size(days, lr),
{
    lemma_first_day_is(days, can_dedent(uid));
    match first_day(days, can_dedent(uid)) {
        Some(i) => {
            lemma_dedent_size(days[i].blocks, days[i].uid, uid);
            lemma_doc_size_update(days, lr, i, dedent(days[i].blocks, days[i].uid, uid).unwrap().0);
        },
        None => {},
    }
}

/// What the operations on the state ask of it: its blocks and rows can be
/// counted, with one to spare, and the cursor of an edit buffer lies within
/// its text.
pub open spec fn sound(s: AppStateView) -> bool {
    &&& doc_size(s.days, s.linked_refs) < usize::MAX
    &&& (s.input_mode matches InputView::Insert { buffer, .. } ==> buffer.wf())
}

/// Number of blocks in `blocks`, at every depth; none where they are more
/// than can be counted.
pub fn block_total(blocks: &Vec<Block>) -> (r: Option<usize>)
    ensures
        r matches Some(n) ==> n == size(forest_view(blocks@)),
        r is None ==> size(forest_view(blocks@)) > usize::MAX,
    decreases blocks@,
{
    let ghost f = forest_view(blocks@);
    let mut n: usize = 0;
    let mut i: usize = 0;
    proof {
        assert(f.skip(0) =~= f);
    }
    while i < blocks.len()
        invariant
            i <= blocks.len(),
            f == forest_view(blocks@),
            f.len() == blocks.len(),
            n + size(f.skip(i as int)) == size(f),
        decreases blocks.len() - i,
    {
        proof {
            lemma_skip_step(f, i as int);
            lemma_view_index(blocks@, i as int);
        }
        match block_total(&blocks[i].children) {
            Some(c) => {
                if c >= usize::MAX - n {
                    return None;
                }
                n = n + 1 + c;
            },
            None => {
                return None;
            },
        }
        i += 1;
    }
    Some(n)
}

/// Rows that the section of references `lr` occupies; none where they are
/// more than can be counted.
pub fn section_total(lr: &LinkedRefsState) -> (r: Option<usize>)
    ensures
        r matches Some(n) ==> n == section_rows(lr@),
        r is None ==> section_rows(lr@) > usize::MAX,
{
    if lr.groups.len() == 0 {
        return Some(0);
    }
    if lr.collapsed {
        return Some(1);
    }
    let ghost g = lr@.groups;
    let mut n: usize = 1;
    let mut i: usize = 0;
    proof {
        assert(g.skip(0) =~= g);
    }
    while i < lr.groups.len()
        invariant
            i <= lr.groups.len(),
            g == lr@.groups,
            g.len() == lr.groups.len(),
            g.len() > 0,
            !lr.collapsed,
            n + group_rows(g.skip(i as int)) == 1 + group_rows(g),
        decreases lr.groups.len() - i,
    {
        proof {
            lemma_skip_step(g, i as int);
            assert(g[i as int] == lr.groups@[i as int]@);
        }
        let c = lr.groups[i].blocks.len();
        if c >= usize::MAX - n {
            return None;
        }
        n = n + 1 + c;
        i += 1;
    }
    Some(n)
}

/// Number of the blocks of all pages together with the rows of their
/// references; none where they are more than can be counted.
pub fn doc_total(days: &Vec<DailyNote>, linked_refs: &StringMap<LinkedRefsState>) -> (r: Option<usize>)
    ensures
        r matches Some(n) ==> n == doc_size(days_view(days@), linked_refs@),
        r is None ==> doc_size(days_view(days@), linked_refs@) > usize::MAX,
{
    let ghost d = days_view(days@);
    let ghost lr = linked_refs@;
    let mut n: usize = 0;
    let mut i: usize = 0;
    proof {
        assert(d.skip(0) =~= d);
    }
    while i < days.len()
        invariant
            i <= days.len(),
            d == days_view(days@),
            d.len() == days.len(),
            lr == linked_refs@,
            n + doc_size(d.skip(i as int), lr) == doc_size(d, lr),
        decreases days.len() - i,
    {
        proof {
            lemma_skip_step(d, i as int);
            assert(d[i as int] == days@[i as int]@);
        }
        let blocks = match block_total(&days[i].blocks) {
            Some(c) => c,
            None => {
                return None;
            },
        };
        let refs = match linked_refs.get(days[i].title.as_str()) {
            Some(section) => match section_total(section) {
                Some(c) => c,
                None => {
                    return None;
                },
            },
            None => 0,
        };
        if blocks > usize::MAX - n {
            return None;
        }
        n = n + blocks;
        if refs > usize::MAX - n {
            return None;
        }
        n = n + refs;
        i += 1;
    }
    Some(n)
}

/// Whether the state is [`sound`]: what the handling of a key asks of it.
pub fn is_sound(state: &AppState) -> (r: bool)
    ensures
        r == sound(state@),
{
    let counted = match doc_total(&state.days, &state.linked_refs) {
        Some(n) => n < usize::MAX,
        None => false,
    };
    let within = match &state.input_mode {
        InputMode::Insert { buffer, .. } => buffer.cursor <= buffer.chars.len(),
        InputMode::Normal => true,
    };
    counted && within
}

} // verus!
