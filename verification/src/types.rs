use crate::date::Date;
use vstd::prelude::*;

verus! {

/// One node of the outline: a piece of text with its sub-blocks.
///
/// The position of a block in its parent's `children` decides where it is
/// shown; `order` is the rank that the remote service is told.
#[derive(Debug, PartialEq)]
pub struct Block {
    pub uid: String,
    pub string: String,
    pub order: i64,
    pub children: Vec<Block>,
    pub open: bool,
    pub refs: Vec<String>,
}

/// What a [`Block`] is, as a mathematical value.
pub struct BlockView {
    pub uid: Seq<char>,
    pub text: Seq<char>,
    pub order: int,
    pub open: bool,
    pub children: Seq<BlockView>,
    pub refs: Seq<Seq<char>>,
}

/// The texts of a list of strings.
pub open spec fn strings_view(s: Seq<String>) -> Seq<Seq<char>> {
    Seq::new(s.len(), |i: int| s[i]@)
}

/// The mathematical value of a list of blocks, children included.
pub open spec fn forest_view(s: Seq<Block>) -> Seq<BlockView>
    decreases s,
{
    Seq::new(
        s.len(),
        |i: int|
            if 0 <= i < s.len() {
                s[i].view()
            } else {
                arbitrary()
            },
    )
}

impl View for Block {
    type V = BlockView;

    open spec fn view(&self) -> BlockView
        decreases self,
    {
        BlockView {
            uid: self.uid@,
            text: self.string@,
            order: self.order as int,
            open: self.open,
            children: forest_view(self.children@),
            refs: strings_view(self.refs@),
        }
    }
}

/// A copy of a list of strings.
pub fn clone_strings(v: &Vec<String>) -> (r: Vec<String>)
    ensures
        strings_view(r@) == strings_view(v@),
{
    let mut r: Vec<String> = Vec::new();
    let mut i: usize = 0;
    while i < v.len()
        invariant
            i <= v.len(),
            r.len() == i,
            forall|j: int| 0 <= j < i ==> r@[j]@ == v@[j]@,
        decreases v.len() - i,
    {
        r.push(v[i].clone());
        i += 1;
    }
    assert(strings_view(r@) =~= strings_view(v@));
    r
}

/// A copy of a list of blocks, children included.
pub fn clone_forest(v: &Vec<Block>) -> (r: Vec<Block>)
    ensures
        forest_view(r@) == forest_view(v@),
    decreases v@,
{
    let mut r: Vec<Block> = Vec::new();
    let mut i: usize = 0;
    while i < v.len()
        invariant
            i <= v.len(),
            r.len() == i,
            forall|j: int| 0 <= j < i ==> r@[j]@ == v@[j]@,
        decreases v.len() - i,
    {
        r.push(v[i].clone());
        i += 1;
    }
    assert(forest_view(r@) =~= forest_view(v@));
    r
}

impl Clone for Block {
    fn clone(&self) -> (r: Self)
        ensures
            r@ == self@,
        decreases self,
    {
        Block {
            uid: self.uid.clone(),
            string: self.string.clone(),
            order: self.order,
            children: clone_forest(&self.children),
            open: self.open,
            refs: clone_strings(&self.refs),
        }
    }
}

/// Whether two lists of strings hold the same texts.
pub fn strings_equal(a: &Vec<String>, b: &Vec<String>) -> (r: bool)
    ensures
        r == (strings_view(a@) == strings_view(b@)),
{
    if a.len() != b.len() {
        assert(strings_view(a@).len() != strings_view(b@).len());
        return false;
    }
    let mut i: usize = 0;
    while i < a.len()
        invariant
            i <= a.len(),
            a.len() == b.len(),
            forall|j: int| 0 <= j < i ==> a@[j]@ == b@[j]@,
        decreases a.len() - i,
    {
        if a[i] != b[i] {
            assert(strings_view(a@)[i as int] != strings_view(b@)[i as int]);
            return false;
        }
        i += 1;
    }
    assert(strings_view(a@) =~= strings_view(b@));
    true
}

/// Whether two lists of blocks are the same, children included.
pub fn forests_equal(a: &Vec<Block>, b: &Vec<Block>) -> (r: bool)
    ensures
        r == (forest_view(a@) == forest_view(b@)),
    decreases a@,
{
    if a.len() != b.len() {
        assert(forest_view(a@).len() != forest_view(b@).len());
        return false;
    }
    let mut i: usize = 0;
    while i < a.len()
        invariant
            i <= a.len(),
            a.len() == b.len(),
            forall|j: int| 0 <= j < i ==> a@[j]@ == b@[j]@,
        decreases a.len() - i,
    {
        if !a[i].same_as(&b[i]) {
            assert(forest_view(a@)[i as int] != forest_view(b@)[i as int]);
            return false;
        }
        i += 1;
    }
    assert(forest_view(a@) =~= forest_view(b@));
    true
}

impl Block {
    /// Whether two blocks are the same, children included.
    pub fn same_as(&self, other: &Block) -> (r: bool)
        ensures
            r == (self@ == other@),
        decreases self,
    {
        self.uid == other.uid && self.string == other.string && self.order == other.order
            && self.open == other.open && forests_equal(&self.children, &other.children)
            && strings_equal(&self.refs, &other.refs)
    }
}

/// One page of the outline: a daily note or a named page. Its uid stands as
/// the parent of its top-level blocks.
#[derive(Debug, PartialEq)]
pub struct DailyNote {
    pub date: Date,
    pub uid: String,
    pub title: String,
    pub blocks: Vec<Block>,
}

/// What a [`DailyNote`] is, as a mathematical value.
pub struct DailyNoteView {
    pub date: Date,
    pub uid: Seq<char>,
    pub title: Seq<char>,
    pub blocks: Seq<BlockView>,
}

impl View for DailyNote {
    type V = DailyNoteView;

    open spec fn view(&self) -> DailyNoteView {
        DailyNoteView {
            date: self.date,
            uid: self.uid@,
            title: self.title@,
            blocks: forest_view(self.blocks@),
        }
    }
}

impl Clone for DailyNote {
    fn clone(&self) -> (r: Self)
        ensures
            r@ == self@,
    {
        DailyNote {
            date: self.date,
            uid: self.uid.clone(),
            title: self.title.clone(),
            blocks: clone_forest(&self.blocks),
        }
    }
}

impl DailyNote {
    /// Whether two pages are the same, blocks included.
    pub fn same_as(&self, other: &DailyNote) -> (r: bool)
        ensures
            r == (self@ == other@),
    {
        self.date == other.date && self.uid == other.uid && self.title == other.title
            && forests_equal(&self.blocks, &other.blocks)
    }
}

/// The mathematical value of a list of pages.
pub open spec fn days_view(s: Seq<DailyNote>) -> Seq<DailyNoteView> {
    Seq::new(s.len(), |i: int| s[i]@)
}

/// A copy of a list of pages.
pub fn clone_days(v: &Vec<DailyNote>) -> (r: Vec<DailyNote>)
    ensures
        days_view(r@) == days_view(v@),
{
    let mut r: Vec<DailyNote> = Vec::new();
    let mut i: usize = 0;
    while i < v.len()
        invariant
            i <= v.len(),
            r.len() == i,
            forall|j: int| 0 <= j < i ==> r@[j]@ == v@[j]@,
        decreases v.len() - i,
    {
        r.push(v[i].clone());
        i += 1;
    }
    assert(days_view(r@) =~= days_view(v@));
    r
}

/// A block elsewhere that refers to a page.
#[derive(Debug, PartialEq)]
pub struct LinkedRefBlock {
    pub uid: String,
    pub string: String,
    pub page_title: String,
}

pub struct LinkedRefBlockView {
    pub uid: Seq<char>,
    pub text: Seq<char>,
    pub page_title: Seq<char>,
}

impl View for LinkedRefBlock {
    type V = LinkedRefBlockView;

    open spec fn view(&self) -> LinkedRefBlockView {
        LinkedRefBlockView { uid: self.uid@, text: self.string@, page_title: self.page_title@ }
    }
}

impl Clone for LinkedRefBlock {
    fn clone(&self) -> (r: Self)
        ensures
            r@ == self@,
    {
        LinkedRefBlock {
            uid: self.uid.clone(),
            string: self.string.clone(),
            page_title: self.page_title.clone(),
        }
    }
}

/// The blocks of one page that refer to another page.
#[derive(Debug, PartialEq)]
pub struct LinkedRefGroup {
    pub page_title: String,
    pub blocks: Vec<LinkedRefBlock>,
}

pub struct LinkedRefGroupView {
    pub page_title: Seq<char>,
    pub blocks: Seq<LinkedRefBlockView>,
}

impl View for LinkedRefGroup {
    type V = LinkedRefGroupView;

    open spec fn view(&self) -> LinkedRefGroupView {
        LinkedRefGroupView {
            page_title: self.page_title@,
            blocks: Seq::new(self.blocks@.len(), |i: int| self.blocks@[i]@),
        }
    }
}

impl Clone for LinkedRefGroup {
    fn clone(&self) -> (r: Self)
        ensures
            r@ == self@,
    {
        let mut blocks: Vec<LinkedRefBlock> = Vec::new();
        let mut i: usize = 0;
        while i < self.blocks.len()
            invariant
                i <= self.blocks.len(),
                blocks.len() == i,
                forall|j: int| 0 <= j < i ==> blocks@[j]@ == self.blocks@[j]@,
            decreases self.blocks.len() - i,
        {
            blocks.push(self.blocks[i].clone());
            i += 1;
        }
        let r = LinkedRefGroup { page_title: self.page_title.clone(), blocks };
        assert(r@.blocks =~= self@.blocks);
        r
    }
}

/// A change to the outline that the remote service is asked to make.
#[derive(Debug, PartialEq)]
#[allow(inconsistent_fields)]
pub enum WriteAction {
    CreateBlock { location: BlockLocation, block: NewBlock },
    UpdateBlock { block: BlockUpdate },
    DeleteBlock { block: BlockRef },
    MoveBlock { block: BlockRef, location: BlockLocation },
}

/// A place in the outline: a parent and a rank among its sub-blocks.
#[derive(Debug, PartialEq)]
pub struct BlockLocation {
    pub parent_uid: String,
    pub order: OrderValue,
}

/// A rank among siblings: a number, or a word such as `last`.
#[derive(Debug, PartialEq)]
pub enum OrderValue {
    Index(i64),
    Position(String),
}

#[derive(Debug, PartialEq)]
pub struct NewBlock {
    pub string: String,
    pub uid: Option<String>,
    pub open: Option<bool>,
}

#[derive(Debug, PartialEq)]
pub struct BlockUpdate {
    pub uid: String,
    pub string: String,
}

#[derive(Debug, PartialEq)]
pub struct BlockRef {
    pub uid: String,
}

/// What an [`OrderValue`] is, as a mathematical value.
pub enum OrderView {
    Index(int),
    Position(Seq<char>),
}

/// What a [`WriteAction`] is, as a mathematical value.
#[allow(inconsistent_fields)]
pub enum WriteView {
    /// A new block with the given text and uid at `order` below `parent_uid`.
    Create { parent_uid: Seq<char>, order: OrderView, text: Seq<char>, uid: Option<Seq<char>>, open: Option<bool> },
    /// New text for a block.
    Update { uid: Seq<char>, text: Seq<char> },
    /// The end of a block.
    Delete { uid: Seq<char> },
    /// A new place for a block.
    Move { uid: Seq<char>, parent_uid: Seq<char>, order: OrderView },
}

impl View for OrderValue {
    type V = OrderView;

    open spec fn view(&self) -> OrderView {
        match self {
            OrderValue::Index(i) => OrderView::Index(*i as int),
            OrderValue::Position(p) => OrderView::Position(p@),
        }
    }
}

impl View for WriteAction {
    type V = WriteView;

    open spec fn view(&self) -> WriteView {
        match self {
            WriteAction::CreateBlock { location, block } => WriteView::Create {
                parent_uid: location.parent_uid@,
                order: location.order@,
                text: block.string@,
                uid: match block.uid {
                    Some(u) => Some(u@),
                    None => None,
                },
                open: block.open,
            },
            WriteAction::UpdateBlock { block } => WriteView::Update {
                uid: block.uid@,
                text: block.string@,
            },
            WriteAction::DeleteBlock { block } => WriteView::Delete { uid: block.uid@ },
            WriteAction::MoveBlock { block, location } => WriteView::Move {
                uid: block.uid@,
                parent_uid: location.parent_uid@,
                order: location.order@,
            },
        }
    }
}

} // verus!
