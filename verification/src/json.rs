use crate::date::Date;
use crate::maps::lookup;
use crate::reconcile::group_views;
use crate::types::{
    forest_view, Block, BlockView, DailyNote, LinkedRefBlock, LinkedRefBlockView, LinkedRefGroup,
    LinkedRefGroupView,
};
use vstd::prelude::*;

verus! {

#[verifier::external_type_specification]
#[verifier::external_body]
pub struct ExJsonValue(serde_json::Value);

/// What a JSON value holds.
pub enum JsonView {
    Null,
    Bool(bool),
    /// A number, with its value where it is a whole number that fits `i64`.
    Number(Option<i64>),
    Text(Seq<char>),
    Array(Seq<JsonView>),
    /// An object: its members by their names, each name once.
    Object(Seq<(Seq<char>, JsonView)>),
}

/// What the JSON value `v` holds.
pub uninterp spec fn json_of(v: serde_json::Value) -> JsonView;

/// What a text holds when it is read as JSON; nothing where it is no JSON.
pub uninterp spec fn parsed_json(text: Seq<char>) -> Option<JsonView>;

/// The member `key` of an object.
pub open spec fn member(j: JsonView, key: Seq<char>) -> Option<JsonView> {
    match j {
        JsonView::Object(members) => lookup(members, key),
        _ => None,
    }
}

/// The text that a JSON value is, where it is one.
pub open spec fn text_of(j: JsonView) -> Option<Seq<char>> {
    match j {
        JsonView::Text(s) => Some(s),
        _ => None,
    }
}

/// Reads `text` as JSON.
///
/// Rests on `serde_json::from_str`, whose result depends on the text alone:
/// the value that the text denotes, or an error where it denotes none.
#[verifier::external_body]
pub(crate) fn json_parse(text: &str) -> (r: Option<serde_json::Value>)
    ensures
        match r {
            Some(v) => parsed_json(text@) == Some(json_of(v)),
            None => parsed_json(text@) is None,
        },
{
    serde_json::from_str::<serde_json::Value>(text).ok()
}

/// The member `key` of the object `v`.
///
/// Rests on `serde_json::Value::get` with a string index, which gives the
/// member of that name of an object, and nothing for any other value or
/// where the object has no such member.
#[verifier::external_body]
pub(crate) fn json_get<'a>(v: &'a serde_json::Value, key: &str) -> (r: Option<&'a serde_json::Value>)
    ensures
        match r {
            Some(m) => member(json_of(*v), key@) == Some(json_of(*m)),
            None => member(json_of(*v), key@) is None,
        },
{
    v.get(key)
}

/// The text that `v` is, where it is a string.
///
/// Rests on `serde_json::Value::as_str`, which gives the text of a string
/// and nothing for any other value.
#[verifier::external_body]
pub(crate) fn json_str(v: &serde_json::Value) -> (r: Option<String>)
    ensures
        match r {
            Some(s) => text_of(json_of(*v)) == Some(s@),
            None => text_of(json_of(*v)) is None,
        },
{
    v.as_str().map(String::from)
}

/// The whole number that `v` is, where it is one that fits `i64`.
///
/// Rests on `serde_json::Value::as_i64`, which gives the value of such a
/// number and nothing for any other value.
#[verifier::external_body]
pub(crate) fn json_i64(v: &serde_json::Value) -> (r: Option<i64>)
    ensures
        r == (match json_of(*v) {
            JsonView::Number(n) => n,
            _ => None,
        }),
{
    v.as_i64()
}

/// The truth value that `v` is, where it is one.
///
/// Rests on `serde_json::Value::as_bool`, which gives the value of a boolean
/// and nothing for any other value.
#[verifier::external_body]
pub(crate) fn json_bool(v: &serde_json::Value) -> (r: Option<bool>)
    ensures
        r == (match json_of(*v) {
            JsonView::Bool(b) => Some(b),
            _ => None,
        }),
{
    v.as_bool()
}

/// The items of `v`, where it is an array.
///
/// Rests on `serde_json::Value::as_array`, which gives the vector of an
/// array and nothing for any other value.
#[verifier::external_body]
pub(crate) fn json_array<'a>(v: &'a serde_json::Value) -> (r: Option<&'a Vec<serde_json::Value>>)
    ensures
        match r {
            Some(items) => json_of(*v) == JsonView::Array(
                Seq::new(items@.len(), |i: int| json_of(items@[i])),
            ),
            None => !(json_of(*v) is Array),
        },
{
    v.as_array()
}

/// The message that the body of an answer carries: the text of the member
/// `message` of the object that the body denotes.
pub open spec fn json_message(body: Seq<char>) -> Option<Seq<char>> {
    match parsed_json(body) {
        Some(j) => match member(j, "message"@) {
            Some(m) => text_of(m),
            None => None,
        },
        None => None,
    }
}

/// The message that the body of an answer carries, where it is a JSON
/// object with a member `message` that is a string.
pub fn extract_json_message(body: &str) -> (r: Option<String>)
    ensures
        match r {
            Some(m) => json_message(body@) == Some(m@),
            None => json_message(body@) is None,
        },
{
    match json_parse(body) {
        Some(v) => match json_get(&v, "message") {
            Some(m) => json_str(m),
            None => None,
        },
        None => None,
    }
}

/// The text of the member `key` of `j`, or nothing where it has none.
pub open spec fn text_member(j: JsonView, key: Seq<char>) -> Seq<char> {
    match member(j, key) {
        Some(m) => match text_of(m) {
            Some(s) => s,
            None => Seq::empty(),
        },
        None => Seq::empty(),
    }
}

/// Where a block of rank `order` goes among `f`, which is in order: after
/// the blocks whose order is at most `order`.
pub open spec fn place_after(f: Seq<BlockView>, order: int) -> int
    decreases f.len(),
{
    if f.len() == 0 {
        0
    } else if f[0].order > order {
        0
    } else {
        1 + place_after(f.skip(1), order)
    }
}

/// The blocks `f` in the order of their ranks; blocks of the same rank stay
/// in the order in which they came.
pub open spec fn in_order(f: Seq<BlockView>) -> Seq<BlockView>
    decreases f.len(),
{
    if f.len() == 0 {
        f
    } else {
        let before = in_order(f.drop_last());
        before.insert(place_after(before, f.last().order), f.last())
    }
}

/// The blocks that the items of a JSON array denote.
pub open spec fn blocks_of_items(items: Seq<JsonView>) -> Seq<BlockView>
    decreases items, 0int,
{
    if items.len() == 0 {
        Seq::empty()
    } else {
        blocks_of_items(items.drop_last()).push(block_of_json(items.last()))
    }
}

/// The sub-blocks that the member `:block/children` of `j` denotes, in the
/// order of their ranks.
pub open spec fn children_of_json(j: JsonView) -> Seq<BlockView>
    decreases j, 2int,
{
    match j {
        JsonView::Object(members) => match lookup(members, ":block/children"@) {
            Some(c) => match c {
                JsonView::Array(items) => {
                    proof {
                        lemma_member_smaller(members, ":block/children"@);
                    }
                    in_order(blocks_of_items(items))
                },
                _ => Seq::empty(),
            },
            None => Seq::empty(),
        },
        _ => Seq::empty(),
    }
}

/// The block that a JSON value denotes: a member that is missing or of
/// another kind gives an empty text, the order 0, and an open block.
pub open spec fn block_of_json(j: JsonView) -> BlockView
    decreases j, 3int,
{
    BlockView {
        uid: text_member(j, ":block/uid"@),
        text: text_member(j, ":block/string"@),
        order: match member(j, ":block/order"@) {
            Some(JsonView::Number(Some(n))) => n as int,
            _ => 0,
        },
        open: match member(j, ":block/open"@) {
            Some(JsonView::Bool(b)) => b,
            _ => true,
        },
        children: children_of_json(j),
        refs: Seq::empty(),
    }
}

/// A member of an object is a smaller value than the object.
pub proof fn lemma_member_smaller(members: Seq<(Seq<char>, JsonView)>, key: Seq<char>)
    ensures
        lookup(members, key) matches Some(m) ==> decreases_to!(members => m),
    decreases members.len(),
{
    if members.len() > 0 {
        if members[0].0 == key {
            assert(decreases_to!(members => members[0]));
            assert(decreases_to!(members[0] => members[0].1));
        } else {
            lemma_member_smaller(members.skip(1), key);
        }
    }
}

/// How deep the values within a JSON value are nested.
pub open spec fn depth(j: JsonView) -> nat
    decreases j, 1int,
{
    match j {
        JsonView::Array(items) => 1 + depth_of_items(items),
        JsonView::Object(members) => 1 + depth_of_members(members),
        _ => 0,
    }
}

/// The greatest depth among the items of an array.
pub open spec fn depth_of_items(items: Seq<JsonView>) -> nat
    decreases items, 0int,
{
    if items.len() == 0 {
        0
    } else {
        let rest = depth_of_items(items.drop_last());
        if depth(items.last()) > rest {
            depth(items.last())
        } else {
            rest
        }
    }
}

/// The greatest depth among the members of an object.
pub open spec fn depth_of_members(members: Seq<(Seq<char>, JsonView)>) -> nat
    decreases members, 0int,
{
    if members.len() == 0 {
        0
    } else {
        let rest = depth_of_members(members.drop_last());
        if depth(members.last().1) > rest {
            depth(members.last().1)
        } else {
            rest
        }
    }
}

pub proof fn lemma_item_depth(items: Seq<JsonView>, i: int)
    requires
        0 <= i < items.len(),
    ensures
        depth(items[i]) <= depth_of_items(items),
    decreases items.len(),
{
    if i < items.len() - 1 {
        lemma_item_depth(items.drop_last(), i);
    }
}

pub proof fn lemma_member_depth(members: Seq<(Seq<char>, JsonView)>, i: int)
    requires
        0 <= i < members.len(),
    ensures
        depth(members[i].1) <= depth_of_members(members),
    decreases members.len(),
{
    if i < members.len() - 1 {
        lemma_member_depth(members.drop_last(), i);
    }
}

/// A member of an object is less deep than the object.
pub proof fn lemma_lookup_depth(members: Seq<(Seq<char>, JsonView)>, key: Seq<char>)
    ensures
        lookup(members, key) matches Some(m) ==> depth(m) <= depth_of_members(members),
{
    crate::maps::lemma_key_pos(members, key);
    match crate::maps::key_pos(members, key) {
        Some(i) => {
            lemma_member_depth(members, i);
        },
        None => {},
    }
}

/// The text of the member `key` of `v`, or an empty text.
pub fn text_field(v: &serde_json::Value, key: &str) -> (r: String)
    ensures
        r@ == text_member(json_of(*v), key@),
{
    match json_get(v, key) {
        Some(m) => match json_str(m) {
            Some(s) => s,
            None => String::new(),
        },
        None => String::new(),
    }
}

/// Where a block of rank `order` goes among `blocks`.
pub fn place_for(blocks: &Vec<Block>, order: i64) -> (pos: usize)
    ensures
        pos == place_after(forest_view(blocks@), order as int),
        pos <= blocks.len(),
{
    let ghost f = forest_view(blocks@);
    let mut i: usize = 0;
    proof {
        assert(f.skip(0) =~= f);
    }
    while i < blocks.len()
        invariant
            i <= blocks.len(),
            f == forest_view(blocks@),
            f.len() == blocks.len(),
            place_after(f, order as int) == i + place_after(f.skip(i as int), order as int),
        decreases blocks.len() - i,
    {
        proof {
            crate::blocks::lemma_skip_step(f, i as int);
            crate::blocks::lemma_view_index(blocks@, i as int);
        }
        if blocks[i].order > order {
            return i;
        }
        i += 1;
    }
    i
}

/// The sub-blocks that the member `:block/children` of `val` denotes, in
/// the order of their ranks.
pub fn parse_children(val: &serde_json::Value) -> (r: Vec<Block>)
    ensures
        forest_view(r@) == children_of_json(json_of(*val)),
    decreases depth(json_of(*val)), 0int,
{
    let mut out: Vec<Block> = Vec::new();
    proof {
        assert(forest_view(out@) =~= Seq::<BlockView>::empty());
    }
    let list = match json_get(val, ":block/children") {
        Some(c) => c,
        None => {
            return out;
        },
    };
    let items = match json_array(list) {
        Some(items) => items,
        None => {
            return out;
        },
    };
    let ghost views = Seq::new(items@.len(), |i: int| json_of(items@[i]));
    let ghost members = json_of(*val)->Object_0;
    proof {
        lemma_lookup_depth(members, ":block/children"@);
        assert(in_order(blocks_of_items(views.take(0))) =~= Seq::<BlockView>::empty()) by {
            assert(views.take(0) =~= Seq::<JsonView>::empty());
        }
    }
    let mut i: usize = 0;
    while i < items.len()
        invariant
            i <= items.len(),
            views == Seq::new(items@.len(), |i: int| json_of(items@[i])),
            json_of(*val) == JsonView::Object(members),
            lookup(members, ":block/children"@) == Some(JsonView::Array(views)),
            depth(JsonView::Array(views)) < depth(json_of(*val)),
            forest_view(out@) == in_order(blocks_of_items(views.take(i as int))),
        decreases items.len() - i,
    {
        proof {
            lemma_item_depth(views, i as int);
            assert(views[i as int] == json_of(items@[i as int]));
        }
        let block = parse_block_from_json(&items[i]);
        let pos = place_for(&out, block.order);
        let ghost before = out@;
        out.insert(pos, block);
        proof {
            crate::blocks::lemma_view_insert(before, pos as int, block);
            assert(views.take(i + 1).drop_last() =~= views.take(i as int));
            assert(views.take(i + 1).last() == views[i as int]);
            let items_so_far = blocks_of_items(views.take(i + 1));
            assert(items_so_far.drop_last() =~= blocks_of_items(views.take(i as int)));
        }
        i += 1;
    }
    proof {
        assert(views.take(views.len() as int) =~= views);
    }
    out
}

/// The block that `val` denotes, with its sub-blocks in the order of their
/// ranks. A member that is missing or of another kind gives an empty text,
/// the order 0, and an open block.
pub fn parse_block_from_json(val: &serde_json::Value) -> (b: Block)
    ensures
        b@ == block_of_json(json_of(*val)),
    decreases depth(json_of(*val)), 1int,
{
    let uid = text_field(val, ":block/uid");
    let string = text_field(val, ":block/string");
    let order = match json_get(val, ":block/order") {
        Some(m) => match json_i64(m) {
            Some(n) => n,
            None => 0,
        },
        None => 0,
    };
    let open = match json_get(val, ":block/open") {
        Some(m) => match json_bool(m) {
            Some(o) => o,
            None => true,
        },
        None => true,
    };
    let children = parse_children(val);
    let b = Block { uid, string, order, children, open, refs: Vec::new() };
    proof {
        assert(b@.refs =~= Seq::<Seq<char>>::empty());
    }
    b
}

impl DailyNote {
    /// The page that the answer `result` of the remote service denotes, for
    /// the day `date` and with the uid `uid`: its title is the member
    /// `:node/title`, and its blocks are those of `:block/children`, in the
    /// order of their ranks.
    pub fn from_pull_response(date: Date, uid: String, result: &serde_json::Value) -> (note: Self)
        ensures
            note@ == (crate::types::DailyNoteView {
                date: date,
                uid: uid@,
                title: text_member(json_of(*result), ":node/title"@),
                blocks: children_of_json(json_of(*result)),
            }),
    {
        let title = text_field(result, ":node/title");
        let blocks = parse_children(result);
        DailyNote { date, uid, title, blocks }
    }
}

/// The day that a page carries which is no daily note.
pub open spec fn no_day() -> Date {
    Date { year: 2000, month: 1, day: 1 }
}

/// The page that the answer `j` to the fetch of the page `title` denotes:
/// its uid is the member `:block/uid`, and its title is `title` where the
/// answer has none.
pub open spec fn page_of_json(title: Seq<char>, j: JsonView) -> crate::types::DailyNoteView {
    crate::types::DailyNoteView {
        date: no_day(),
        uid: text_member(j, ":block/uid"@),
        title: if text_member(j, ":node/title"@).len() == 0 {
            title
        } else {
            text_member(j, ":node/title"@)
        },
        blocks: children_of_json(j),
    }
}

/// The page that the answer `result` to the fetch of the page `title`
/// denotes.
pub fn page_from_pull(title: &str, result: &serde_json::Value) -> (note: DailyNote)
    ensures
        note@ == page_of_json(title@, json_of(*result)),
{
    let uid = text_field(result, ":block/uid");
    let mut note = DailyNote::from_pull_response(Date { year: 2000, month: 1, day: 1 }, uid, result);
    proof {
        reveal_strlit("");
    }
    if crate::text::str_eq(note.title.as_str(), "") {
        note.title = title.to_owned();
    } else {
        assert(note.title@.len() > 0) by {
            if note.title@.len() == 0 {
                assert(note.title@ =~= ""@);
            }
        }
    }
    note
}

/// The text of a block that the answer `j` to the fetch of its text holds:
/// the member `:block/string`, where it is a text that is not empty.
pub open spec fn block_text_of(j: JsonView) -> Option<Seq<char>> {
    if text_member(j, ":block/string"@).len() == 0 {
        None
    } else {
        Some(text_member(j, ":block/string"@))
    }
}

/// The text of a block that the answer `result` to the fetch of its text
/// holds.
pub fn block_text_from_pull(result: &serde_json::Value) -> (r: Option<String>)
    ensures
        match r {
            Some(text) => block_text_of(json_of(*result)) == Some(text@),
            None => block_text_of(json_of(*result)) is None,
        },
{
    let text = text_field(result, ":block/string");
    proof {
        reveal_strlit("");
    }
    if crate::text::str_eq(text.as_str(), "") {
        None
    } else {
        assert(text@.len() > 0) by {
            if text@.len() == 0 {
                assert(text@ =~= ""@);
            }
        }
        Some(text)
    }
}

/// The reference that a row of an answer denotes: an array that begins
/// with three texts, the uid of a block, its text and the title of its
/// page.
pub open spec fn ref_of_row(row: JsonView) -> Option<LinkedRefBlockView> {
    match row {
        JsonView::Array(items) => if items.len() >= 3 {
            match (text_of(items[0]), text_of(items[1]), text_of(items[2])) {
                (Some(uid), Some(text), Some(title)) => Some(
                    LinkedRefBlockView { uid: uid, text: text, page_title: title },
                ),
                _ => None,
            }
        } else {
            None
        },
        _ => None,
    }
}

/// Place of the group of the page `title`.
pub open spec fn group_pos(groups: Seq<LinkedRefGroupView>, title: Seq<char>) -> Option<int>
    decreases groups.len(),
{
    if groups.len() == 0 {
        None
    } else if groups[0].page_title == title {
        Some(0)
    } else {
        match group_pos(groups.skip(1), title) {
            Some(k) => Some(k + 1),
            None => None,
        }
    }
}

/// The groups with the reference `b` added: to the group of its page, or
/// as a new group at the end.
pub open spec fn with_ref(groups: Seq<LinkedRefGroupView>, b: LinkedRefBlockView) -> Seq<
    LinkedRefGroupView,
> {
    match group_pos(groups, b.page_title) {
        Some(k) => groups.update(
            k,
            LinkedRefGroupView { page_title: groups[k].page_title, blocks: groups[k].blocks.push(b) },
        ),
        None => groups.push(LinkedRefGroupView { page_title: b.page_title, blocks: seq![b] }),
    }
}

/// The references that the rows denote, by the pages they are on, in the
/// order in which the pages first occur. A row that denotes no reference
/// and a reference on the page `page_title` itself are left out.
pub open spec fn refs_of_rows(rows: Seq<JsonView>, page_title: Seq<char>) -> Seq<LinkedRefGroupView>
    decreases rows.len(),
{
    if rows.len() == 0 {
        Seq::empty()
    } else {
        let before = refs_of_rows(rows.drop_last(), page_title);
        match ref_of_row(rows.last()) {
            Some(b) => if b.page_title == page_title {
                before
            } else {
                with_ref(before, b)
            },
            None => before,
        }
    }
}

/// The references to the page `page_title` that an answer denotes.
pub open spec fn linked_refs_of(j: JsonView, page_title: Seq<char>) -> Seq<LinkedRefGroupView> {
    match j {
        JsonView::Array(rows) => refs_of_rows(rows, page_title),
        _ => Seq::empty(),
    }
}

/// The reference that the row `row` denotes.
pub fn parse_ref_row(row: &serde_json::Value) -> (r: Option<LinkedRefBlock>)
    ensures
        match r {
            Some(b) => ref_of_row(json_of(*row)) == Some(b@),
            None => ref_of_row(json_of(*row)) is None,
        },
{
    let items = match json_array(row) {
        Some(items) => items,
        None => {
            return None;
        },
    };
    if items.len() < 3 {
        return None;
    }
    let uid = match json_str(&items[0]) {
        Some(s) => s,
        None => {
            return None;
        },
    };
    let string = match json_str(&items[1]) {
        Some(s) => s,
        None => {
            return None;
        },
    };
    let page_title = match json_str(&items[2]) {
        Some(s) => s,
        None => {
            return None;
        },
    };
    Some(LinkedRefBlock { uid, string, page_title })
}

/// Adds the reference `b` to the group of its page, or as a new group.
pub fn add_ref(groups: &mut Vec<LinkedRefGroup>, b: LinkedRefBlock)
    ensures
        group_views(final(groups)@) == with_ref(group_views(old(groups)@), b@),
{
    let ghost g = group_views(groups@);
    let mut i: usize = 0;
    proof {
        assert(g.skip(0) =~= g);
    }
    while i < groups.len()
        invariant
            i <= groups.len(),
            groups@ == old(groups)@,
            g == group_views(groups@),
            group_pos(g, b@.page_title) == crate::tree::moved_on(
                group_pos(g.skip(i as int), b@.page_title),
                i as int,
            ),
        decreases groups.len() - i,
    {
        proof {
            crate::blocks::lemma_skip_step(g, i as int);
            assert(g[i as int] == groups@[i as int]@);
        }
        if crate::text::str_eq(groups[i].page_title.as_str(), b.page_title.as_str()) {
            let ghost before = groups@[i as int]@;
            groups[i].blocks.push(b);
            proof {
                assert(groups@[i as int]@.blocks =~= before.blocks.push(b@));
                assert(group_views(groups@) =~= g.update(
                    i as int,
                    LinkedRefGroupView {
                        page_title: g[i as int].page_title,
                        blocks: g[i as int].blocks.push(b@),
                    },
                ));
            }
            return;
        }
        i += 1;
    }
    let title = b.page_title.clone();
    let mut blocks: Vec<LinkedRefBlock> = Vec::new();
    blocks.push(b);
    let group = LinkedRefGroup { page_title: title, blocks };
    proof {
        assert(group@.blocks =~= seq![b@]);
    }
    groups.push(group);
    proof {
        assert(group_views(groups@) =~= g.push(group@));
    }
}

/// The references to the page `page_title` that the answer `result`
/// denotes, by the pages they are on.
pub fn parse_linked_refs(result: &serde_json::Value, page_title: &str) -> (groups: Vec<LinkedRefGroup>)
    ensures
        group_views(groups@) == linked_refs_of(json_of(*result), page_title@),
{
    let mut groups: Vec<LinkedRefGroup> = Vec::new();
    proof {
        assert(group_views(groups@) =~= Seq::<LinkedRefGroupView>::empty());
    }
    let rows = match json_array(result) {
        Some(rows) => rows,
        None => {
            return groups;
        },
    };
    let ghost views = Seq::new(rows@.len(), |i: int| json_of(rows@[i]));
    let mut i: usize = 0;
    proof {
        assert(views.take(0) =~= Seq::<JsonView>::empty());
    }
    while i < rows.len()
        invariant
            i <= rows.len(),
            views == Seq::new(rows@.len(), |i: int| json_of(rows@[i])),
            group_views(groups@) == refs_of_rows(views.take(i as int), page_title@),
        decreases rows.len() - i,
    {
        proof {
            assert(views.take(i + 1).drop_last() =~= views.take(i as int));
            assert(views.take(i + 1).last() == json_of(rows@[i as int]));
        }
        match parse_ref_row(&rows[i]) {
            Some(b) => {
                if !crate::text::str_eq(b.page_title.as_str(), page_title) {
                    add_ref(&mut groups, b);
                }
            },
            None => {},
        }
        i += 1;
    }
    proof {
        assert(views.take(views.len() as int) =~= views);
    }
    groups
}

} // verus!
