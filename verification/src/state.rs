use crate::date::{header_text, Date};
use crate::doc::{
    flat_count, group_rows, item_in_groups, ref_day_in_days, ref_item_in_days, section_item,
    section_rows, total_rows,
};
use crate::edit_buffer::{BufferView, EditBuffer};
use crate::error::{ErrorPopup, PopupView};
use crate::maps::{StringMap, StringSet};
use crate::tree::RowView;
use crate::types::{
    clone_days, days_view, strings_view, Block, BlockView, DailyNote, DailyNoteView,
    LinkedRefBlock, LinkedRefBlockView, LinkedRefGroup, LinkedRefGroupView,
};
use vstd::prelude::*;

verus! {

/// One step that can be taken back: what is needed to restore the outline as
/// it was before a change, without looking at anything else.
#[derive(Debug, PartialEq)]
pub enum UndoEntry {
    TextEdit { block_uid: String, old_text: String },
    CreateBlock { block_uid: String },
    DeleteBlock { block: Block, parent_uid: String, order: i64, selected_block: usize },
    MoveBlock { block_uid: String, old_parent_uid: String, old_order: i64, selected_block: usize },
}

/// What an [`UndoEntry`] is, as a mathematical value.
pub enum UndoView {
    TextEdit { block_uid: Seq<char>, old_text: Seq<char> },
    CreateBlock { block_uid: Seq<char> },
    DeleteBlock { block: BlockView, parent_uid: Seq<char>, order: int, selected_block: nat },
    MoveBlock { block_uid: Seq<char>, old_parent_uid: Seq<char>, old_order: int, selected_block: nat },
}

impl View for UndoEntry {
    type V = UndoView;

    open spec fn view(&self) -> UndoView {
        match self {
            UndoEntry::TextEdit { block_uid, old_text } => UndoView::TextEdit {
                block_uid: block_uid@,
                old_text: old_text@,
            },
            UndoEntry::CreateBlock { block_uid } => UndoView::CreateBlock { block_uid: block_uid@ },
            UndoEntry::DeleteBlock { block, parent_uid, order, selected_block } => UndoView::DeleteBlock {
                block: block@,
                parent_uid: parent_uid@,
                order: *order as int,
                selected_block: *selected_block as nat,
            },
            UndoEntry::MoveBlock {
                block_uid,
                old_parent_uid,
                old_order,
                selected_block,
            } => UndoView::MoveBlock {
                block_uid: block_uid@,
                old_parent_uid: old_parent_uid@,
                old_order: *old_order as int,
                selected_block: *selected_block as nat,
            },
        }
    }
}

impl Clone for UndoEntry {
    fn clone(&self) -> (r: Self)
        ensures
            r@ == self@,
    {
        match self {
            UndoEntry::TextEdit { block_uid, old_text } => UndoEntry::TextEdit {
                block_uid: block_uid.clone(),
                old_text: old_text.clone(),
            },
            UndoEntry::CreateBlock { block_uid } => UndoEntry::CreateBlock {
                block_uid: block_uid.clone(),
            },
            UndoEntry::DeleteBlock { block, parent_uid, order, selected_block } => UndoEntry::DeleteBlock {
                block: block.clone(),
                parent_uid: parent_uid.clone(),
                order: *order,
                selected_block: *selected_block,
            },
            UndoEntry::MoveBlock {
                block_uid,
                old_parent_uid,
                old_order,
                selected_block,
            } => UndoEntry::MoveBlock {
                block_uid: block_uid.clone(),
                old_parent_uid: old_parent_uid.clone(),
                old_order: *old_order,
                selected_block: *selected_block,
            },
        }
    }
}

/// The views of a stack of undo entries, the oldest first.
pub open spec fn undo_views(s: Seq<UndoEntry>) -> Seq<UndoView> {
    Seq::new(s.len(), |i: int| s[i]@)
}

/// The choice of a block to refer to, while its name is being typed.
#[derive(Debug, PartialEq)]
pub struct AutocompleteState {
    pub query: String,
    /// Pairs of uid and text.
    pub results: Vec<(String, String)>,
    pub selected: usize,
}

/// The search for a block by its text.
#[derive(Debug, PartialEq)]
pub struct SearchState {
    pub query: String,
    /// Pairs of uid and text.
    pub results: Vec<(String, String)>,
    pub selected: usize,
}

/// The texts of a list of pairs of strings.
pub open spec fn pairs_view(s: Seq<(String, String)>) -> Seq<(Seq<char>, Seq<char>)> {
    Seq::new(s.len(), |i: int| (s[i].0@, s[i].1@))
}

/// What a choice from a list of pairs is, as a mathematical value.
pub struct PickView {
    pub query: Seq<char>,
    pub results: Seq<(Seq<char>, Seq<char>)>,
    pub selected: nat,
}

impl View for AutocompleteState {
    type V = PickView;

    open spec fn view(&self) -> PickView {
        PickView {
            query: self.query@,
            results: pairs_view(self.results@),
            selected: self.selected as nat,
        }
    }
}

impl View for SearchState {
    type V = PickView;

    open spec fn view(&self) -> PickView {
        PickView {
            query: self.query@,
            results: pairs_view(self.results@),
            selected: self.selected as nat,
        }
    }
}

/// What a [`QuickSwitcherState`] is, as a mathematical value.
pub struct SwitcherView {
    pub query: Seq<char>,
    pub filtered: Seq<(Seq<char>, Seq<char>)>,
    pub selected: nat,
    pub debounce_ticks: nat,
    pub fetching: bool,
}

impl View for QuickSwitcherState {
    type V = SwitcherView;

    open spec fn view(&self) -> SwitcherView {
        SwitcherView {
            query: self.query@,
            filtered: pairs_view(self.filtered@),
            selected: self.selected as nat,
            debounce_ticks: self.debounce_ticks as nat,
            fetching: self.fetching,
        }
    }
}

/// What a [`LinkPickerState`] is, as a mathematical value.
pub struct LinkPickerView {
    pub links: Seq<Seq<char>>,
    pub selected: nat,
}

impl View for LinkPickerState {
    type V = LinkPickerView;

    open spec fn view(&self) -> LinkPickerView {
        LinkPickerView { links: strings_view(self.links@), selected: self.selected as nat }
    }
}

/// The choice of a page by its title.
#[derive(Debug, PartialEq)]
pub struct QuickSwitcherState {
    pub query: String,
    /// Pairs of title and uid.
    pub filtered: Vec<(String, String)>,
    pub selected: usize,
    pub debounce_ticks: u32,
    pub fetching: bool,
}

/// What is shown: the daily notes, newest first, or one named page.
#[derive(Debug, PartialEq)]
pub enum ViewMode {
    DailyNotes,
    Page { title: String },
}

/// What a [`ViewMode`] is, as a mathematical value.
pub enum ViewModeView {
    DailyNotes,
    Page { title: Seq<char> },
}

impl View for ViewMode {
    type V = ViewModeView;

    open spec fn view(&self) -> ViewModeView {
        match self {
            ViewMode::DailyNotes => ViewModeView::DailyNotes,
            ViewMode::Page { title } => ViewModeView::Page { title: title@ },
        }
    }
}

impl Clone for ViewMode {
    fn clone(&self) -> (r: Self)
        ensures
            r@ == self@,
    {
        match self {
            ViewMode::DailyNotes => ViewMode::DailyNotes,
            ViewMode::Page { title } => ViewMode::Page { title: title.clone() },
        }
    }
}

impl ViewMode {
    pub fn is_daily_notes(&self) -> (r: bool)
        ensures
            r == (self@ == ViewModeView::DailyNotes),
    {
        match self {
            ViewMode::DailyNotes => true,
            ViewMode::Page { .. } => false,
        }
    }
}

/// The choice among the pages that a block links to.
#[derive(Debug, PartialEq)]
pub struct LinkPickerState {
    pub links: Vec<String>,
    pub selected: usize,
}

/// A view that was left and can be returned to: what was shown, and where
/// the cursor stood.
#[derive(Debug, PartialEq)]
pub struct ViewSnapshot {
    pub view_mode: ViewMode,
    pub days: Vec<DailyNote>,
    pub selected_block: usize,
}

/// What a [`ViewSnapshot`] is, as a mathematical value.
pub struct SnapshotView {
    pub view_mode: ViewModeView,
    pub days: Seq<DailyNoteView>,
    pub selected_block: nat,
}

impl View for ViewSnapshot {
    type V = SnapshotView;

    open spec fn view(&self) -> SnapshotView {
        SnapshotView {
            view_mode: self.view_mode@,
            days: days_view(self.days@),
            selected_block: self.selected_block as nat,
        }
    }
}

impl Clone for ViewSnapshot {
    fn clone(&self) -> (r: Self)
        ensures
            r@ == self@,
    {
        ViewSnapshot {
            view_mode: self.view_mode.clone(),
            days: clone_days(&self.days),
            selected_block: self.selected_block,
        }
    }
}

/// The views of a list of snapshots.
pub open spec fn snapshot_views(s: Seq<ViewSnapshot>) -> Seq<SnapshotView> {
    Seq::new(s.len(), |i: int| s[i]@)
}

/// A page that is to be fetched.
#[derive(Debug, PartialEq)]
pub enum LoadRequest {
    DailyNote(Date),
    Page(String),
}

/// What a [`LoadRequest`] is, as a mathematical value.
pub enum LoadView {
    DailyNote(Date),
    Page(Seq<char>),
}

impl View for LoadRequest {
    type V = LoadView;

    open spec fn view(&self) -> LoadView {
        match self {
            LoadRequest::DailyNote(d) => LoadView::DailyNote(*d),
            LoadRequest::Page(t) => LoadView::Page(t@),
        }
    }
}

/// The blocks elsewhere that refer to a page, by the page they are on.
#[derive(Debug, PartialEq)]
pub struct LinkedRefsState {
    pub groups: Vec<LinkedRefGroup>,
    pub collapsed: bool,
    pub loading: bool,
}

/// What a [`LinkedRefsState`] is, as a mathematical value.
pub struct LinkedRefsView {
    pub groups: Seq<LinkedRefGroupView>,
    pub collapsed: bool,
    pub loading: bool,
}

impl View for LinkedRefsState {
    type V = LinkedRefsView;

    open spec fn view(&self) -> LinkedRefsView {
        LinkedRefsView {
            groups: Seq::new(self.groups@.len(), |i: int| self.groups@[i]@),
            collapsed: self.collapsed,
            loading: self.loading,
        }
    }
}

impl Clone for LinkedRefsState {
    fn clone(&self) -> (r: Self)
        ensures
            r@ == self@,
    {
        let mut groups: Vec<LinkedRefGroup> = Vec::new();
        let mut i: usize = 0;
        while i < self.groups.len()
            invariant
                i <= self.groups.len(),
                groups.len() == i,
                forall|j: int| 0 <= j < i ==> groups@[j]@ == self.groups@[j]@,
            decreases self.groups.len() - i,
        {
            groups.push(self.groups[i].clone());
            i += 1;
        }
        let r = LinkedRefsState { groups, collapsed: self.collapsed, loading: self.loading };
        assert(r@.groups =~= self@.groups);
        r
    }
}

/// One row of the section of references below a page.
#[derive(Debug, PartialEq)]
pub enum LinkedRefItem {
    SectionHeader,
    GroupHeader(String),
    Block(LinkedRefBlock),
}

/// What a [`LinkedRefItem`] is, as a mathematical value.
pub enum LinkedRefItemView {
    SectionHeader,
    GroupHeader(Seq<char>),
    Block(LinkedRefBlockView),
}

impl View for LinkedRefItem {
    type V = LinkedRefItemView;

    open spec fn view(&self) -> LinkedRefItemView {
        match self {
            LinkedRefItem::SectionHeader => LinkedRefItemView::SectionHeader,
            LinkedRefItem::GroupHeader(t) => LinkedRefItemView::GroupHeader(t@),
            LinkedRefItem::Block(b) => LinkedRefItemView::Block(b@),
        }
    }
}

/// Where a block that is being created will be written: it is not yet known
/// to the remote service.
#[derive(Debug, PartialEq)]
pub struct CreateInfo {
    pub parent_uid: String,
    pub order: i64,
}

impl Clone for CreateInfo {
    fn clone(&self) -> (r: Self)
        ensures
            r.parent_uid@ == self.parent_uid@,
            r.order == self.order,
    {
        CreateInfo { parent_uid: self.parent_uid.clone(), order: self.order }
    }
}

/// Whether a block is being edited, and which.
#[derive(Debug, PartialEq)]
pub enum InputMode {
    Normal,
    Insert {
        buffer: EditBuffer,
        block_uid: String,
        original_text: String,
        create_info: Option<CreateInfo>,
    },
}

/// What an [`InputMode`] is, as a mathematical value.
pub enum InputView {
    Normal,
    Insert {
        buffer: BufferView,
        block_uid: Seq<char>,
        original_text: Seq<char>,
        /// Parent and order of a block that is being created.
        create_info: Option<(Seq<char>, int)>,
    },
}

impl View for InputMode {
    type V = InputView;

    open spec fn view(&self) -> InputView {
        match self {
            InputMode::Normal => InputView::Normal,
            InputMode::Insert { buffer, block_uid, original_text, create_info } => InputView::Insert {
                buffer: buffer@,
                block_uid: block_uid@,
                original_text: original_text@,
                create_info: match create_info {
                    Some(c) => Some((c.parent_uid@, c.order as int)),
                    None => None,
                },
            },
        }
    }
}

impl InputMode {
    pub fn is_normal(&self) -> (r: bool)
        ensures
            r == (self@ == InputView::Normal),
    {
        match self {
            InputMode::Normal => true,
            InputMode::Insert { .. } => false,
        }
    }

    /// Whether an edit buffer, if there is one, has its cursor within its text.
    pub open spec fn wf(&self) -> bool {
        match self {
            InputMode::Normal => true,
            InputMode::Insert { buffer, .. } => buffer.wf(),
        }
    }
}

/// What one visible row shows of its block: the answer of the flat-index
/// resolver.
#[derive(Debug, PartialEq)]
pub struct BlockInfo {
    pub block_uid: String,
    pub parent_uid: String,
    pub text: String,
    pub order: i64,
    pub depth: usize,
}

impl View for BlockInfo {
    type V = RowView;

    open spec fn view(&self) -> RowView {
        RowView {
            block_uid: self.block_uid@,
            parent_uid: self.parent_uid@,
            text: self.text@,
            order: self.order as int,
            depth: self.depth as nat,
        }
    }
}

impl Clone for BlockInfo {
    fn clone(&self) -> (r: Self)
        ensures
            r@ == self@,
    {
        BlockInfo {
            block_uid: self.block_uid.clone(),
            parent_uid: self.parent_uid.clone(),
            text: self.text.clone(),
            order: self.order,
            depth: self.depth,
        }
    }
}

/// The whole state of the outline: what is loaded, where the cursor stands,
/// what is being edited, and what can be undone or returned to.
pub struct AppState {
    pub graph_name: String,
    pub date_display: String,
    pub days: Vec<DailyNote>,
    pub current_date: Date,
    pub selected_block: usize,
    pub cursor_col: usize,
    pub loading: bool,
    pub loading_more: bool,
    pub status_message: Option<String>,
    pub hints: Vec<(String, &'static str)>,
    pub should_quit: bool,
    pub refresh_counter: u32,
    pub input_mode: InputMode,
    pub pending_key: Option<char>,
    pub block_ref_cache: StringMap<String>,
    pub pending_block_refs: StringSet,
    pub autocomplete: Option<AutocompleteState>,
    pub search: Option<SearchState>,
    pub quick_switcher: Option<QuickSwitcherState>,
    pub slash_menu: Option<crate::slash::SlashMenuState>,
    pub page_title_cache: Vec<(String, String)>,
    pub undo_stack: Vec<UndoEntry>,
    pub redo_stack: Vec<UndoEntry>,
    pub show_help: bool,
    pub view_mode: ViewMode,
    pub nav_history: Vec<ViewSnapshot>,
    pub nav_index: usize,
    pub link_picker: Option<LinkPickerState>,
    pub error_popup: Option<ErrorPopup>,
    pub linked_refs: StringMap<LinkedRefsState>,
}

pub proof fn lemma_group_step(groups: Seq<LinkedRefGroupView>, i: int, t: nat)
    requires
        0 <= i < groups.len(),
    ensures
        group_rows(groups.skip(i)) == 1 + groups[i].blocks.len() + group_rows(groups.skip(i + 1)),
        item_in_groups(groups.skip(i), t) == (if t == 0 {
            Some(LinkedRefItemView::GroupHeader(groups[i].page_title))
        } else if t - 1 < groups[i].blocks.len() {
            Some(LinkedRefItemView::Block(groups[i].blocks[t - 1]))
        } else {
            item_in_groups(groups.skip(i + 1), (t - 1 - groups[i].blocks.len()) as nat)
        }),
        groups.skip(0) == groups,
{
    assert(groups.skip(i).skip(1) =~= groups.skip(i + 1));
    assert(groups.skip(0) =~= groups);
}

/// Rows that the section of references `lr` occupies.
pub fn linked_ref_section_count(lr: &LinkedRefsState) -> (n: usize)
    requires
        section_rows(lr@) <= usize::MAX,
    ensures
        n == section_rows(lr@),
{
    if lr.groups.len() == 0 {
        return 0;
    }
    if lr.collapsed {
        return 1;
    }
    let ghost g = lr@.groups;
    let mut n: usize = 1;
    let mut i: usize = 0;
    proof {
        lemma_group_step(g, 0, 0);
    }
    while i < lr.groups.len()
        invariant
            i <= lr.groups.len(),
            g == lr@.groups,
            g.len() == lr.groups.len(),
            n + group_rows(g.skip(i as int)) == 1 + group_rows(g),
            1 + group_rows(g) <= usize::MAX,
        decreases lr.groups.len() - i,
    {
        proof {
            lemma_group_step(g, i as int, 0);
            assert(g[i as int] == lr.groups@[i as int]@);
        }
        n = n + 1 + lr.groups[i].blocks.len();
        i += 1;
    }
    n
}

/// What row `offset` of the section of references `lr` shows.
pub fn resolve_within_linked_refs(lr: &LinkedRefsState, offset: usize) -> (r: Option<LinkedRefItem>)
    ensures
        r matches Some(item) ==> section_item(lr@, offset as nat) == Some(item@),
        r is None ==> section_item(lr@, offset as nat) is None,
{
    if lr.groups.len() == 0 {
        return None;
    }
    if offset == 0 {
        return Some(LinkedRefItem::SectionHeader);
    }
    if lr.collapsed {
        return None;
    }
    let ghost g = lr@.groups;
    let mut rest: usize = offset - 1;
    let mut i: usize = 0;
    proof {
        lemma_group_step(g, 0, 0);
    }
    while i < lr.groups.len()
        invariant
            i <= lr.groups.len(),
            g == lr@.groups,
            g.len() == lr.groups.len(),
            section_item(lr@, offset as nat) == item_in_groups(g, (offset - 1) as nat),
            item_in_groups(g, (offset - 1) as nat) == item_in_groups(g.skip(i as int), rest as nat),
        decreases lr.groups.len() - i,
    {
        proof {
            lemma_group_step(g, i as int, rest as nat);
            assert(g[i as int] == lr.groups@[i as int]@);
            if 0 < rest && rest - 1 < lr.groups@[i as int].blocks@.len() {
                assert(g[i as int].blocks[rest - 1] == lr.groups@[i as int].blocks@[rest - 1]@);
            }
        }
        if rest == 0 {
            return Some(LinkedRefItem::GroupHeader(lr.groups[i].page_title.clone()));
        }
        rest = rest - 1;
        if rest < lr.groups[i].blocks.len() {
            return Some(LinkedRefItem::Block(lr.groups[i].blocks[rest].clone()));
        }
        rest = rest - lr.groups[i].blocks.len();
        i += 1;
    }
    None
}

/// The texts of the hints shown for the keys.
pub open spec fn hints_view(s: Seq<(String, &'static str)>) -> Seq<(Seq<char>, Seq<char>)> {
    Seq::new(s.len(), |i: int| (s[i].0@, s[i].1@))
}

/// What an [`AppState`] is, as a mathematical value.
pub struct AppStateView {
    pub graph_name: Seq<char>,
    pub date_display: Seq<char>,
    pub days: Seq<DailyNoteView>,
    pub current_date: Date,
    pub selected_block: nat,
    pub cursor_col: nat,
    pub loading: bool,
    pub loading_more: bool,
    pub status_message: Option<Seq<char>>,
    pub hints: Seq<(Seq<char>, Seq<char>)>,
    pub should_quit: bool,
    pub refresh_counter: nat,
    pub input_mode: InputView,
    pub pending_key: Option<char>,
    pub block_ref_cache: Seq<(Seq<char>, Seq<char>)>,
    pub pending_block_refs: Seq<Seq<char>>,
    pub autocomplete: Option<PickView>,
    pub search: Option<PickView>,
    pub quick_switcher: Option<SwitcherView>,
    pub slash_menu: Option<crate::slash::SlashMenuView>,
    pub page_title_cache: Seq<(Seq<char>, Seq<char>)>,
    pub undo_stack: Seq<UndoView>,
    pub redo_stack: Seq<UndoView>,
    pub show_help: bool,
    pub view_mode: ViewModeView,
    pub nav_history: Seq<SnapshotView>,
    pub nav_index: nat,
    pub link_picker: Option<LinkPickerView>,
    pub error_popup: Option<PopupView>,
    pub linked_refs: Seq<(Seq<char>, LinkedRefsView)>,
}

impl View for AppState {
    type V = AppStateView;

    open spec fn view(&self) -> AppStateView {
        AppStateView {
            graph_name: self.graph_name@,
            date_display: self.date_display@,
            days: days_view(self.days@),
            current_date: self.current_date,
            selected_block: self.selected_block as nat,
            cursor_col: self.cursor_col as nat,
            loading: self.loading,
            loading_more: self.loading_more,
            status_message: match self.status_message {
                Some(m) => Some(m@),
                None => None,
            },
            hints: hints_view(self.hints@),
            should_quit: self.should_quit,
            refresh_counter: self.refresh_counter as nat,
            input_mode: self.input_mode@,
            pending_key: self.pending_key,
            block_ref_cache: self.block_ref_cache@,
            pending_block_refs: self.pending_block_refs@,
            autocomplete: match self.autocomplete {
                Some(a) => Some(a@),
                None => None,
            },
            search: match self.search {
                Some(a) => Some(a@),
                None => None,
            },
            quick_switcher: match self.quick_switcher {
                Some(a) => Some(a@),
                None => None,
            },
            slash_menu: match self.slash_menu {
                Some(a) => Some(a@),
                None => None,
            },
            page_title_cache: pairs_view(self.page_title_cache@),
            undo_stack: undo_views(self.undo_stack@),
            redo_stack: undo_views(self.redo_stack@),
            show_help: self.show_help,
            view_mode: self.view_mode@,
            nav_history: snapshot_views(self.nav_history@),
            nav_index: self.nav_index as nat,
            link_picker: match self.link_picker {
                Some(a) => Some(a@),
                None => None,
            },
            error_popup: match self.error_popup {
                Some(a) => Some(a@),
                None => None,
            },
            linked_refs: self.linked_refs@,
        }
    }
}

/// The state in which the outline starts on the day `today`, before anything
/// is loaded.
pub open spec fn initial_state(
    graph_name: Seq<char>,
    hints: Seq<(Seq<char>, Seq<char>)>,
    today: Date,
    date_display: Seq<char>,
) -> AppStateView {
    AppStateView {
        graph_name: graph_name,
        date_display: date_display,
        days: Seq::empty(),
        current_date: today,
        selected_block: 0,
        cursor_col: 0,
        loading: true,
        loading_more: false,
        status_message: Some("Loading today's notes..."@),
        hints: hints,
        should_quit: false,
        refresh_counter: 0,
        input_mode: InputView::Normal,
        pending_key: None,
        block_ref_cache: Seq::empty(),
        pending_block_refs: Seq::empty(),
        autocomplete: None,
        search: None,
        quick_switcher: None,
        slash_menu: None,
        page_title_cache: Seq::empty(),
        undo_stack: Seq::empty(),
        redo_stack: Seq::empty(),
        show_help: false,
        view_mode: ViewModeView::DailyNotes,
        nav_history: Seq::empty(),
        nav_index: 0,
        link_picker: None,
        error_popup: None,
        linked_refs: Seq::empty(),
    }
}

/// How the day `date` is shown at the head of the outline.
///
/// Rests on `chrono::NaiveDate::from_ymd_opt` and `format` with the pattern
/// `%b %d, %Y`: the short name of the month, the day in two digits and the
/// year in four, with its sign where it has more or is negative. A day that
/// is no day of the calendar is shown as an empty text.
#[verifier::external_body]
pub(crate) fn header_date(date: Date) -> (r: String)
    ensures
        date.is_valid() ==> r@ == header_text(date),
        !date.is_valid() ==> r@.len() == 0,
{
    match chrono::NaiveDate::from_ymd_opt(date.year, date.month, date.day) {
        Some(d) => d.format("%b %d, %Y").to_string(),
        None => String::new(),
    }
}

impl AppState {
    /// The state in which the outline starts today.
    pub fn new(graph_name: &str, hints: Vec<(String, &'static str)>) -> (state: Self)
        ensures
            exists|today: Date|
                today.is_valid() && state@ == #[trigger] initial_state(
                    graph_name@,
                    hints_view(hints@),
                    today,
                    header_text(today),
                ),
    {
        let today = crate::text::today();
        let shown = header_date(today);
        Self::starting_on(graph_name, hints, today, shown)
    }

    /// The state in which the outline starts on the day `today`, which is
    /// shown as `date_display`.
    pub fn starting_on(
        graph_name: &str,
        hints: Vec<(String, &'static str)>,
        today: Date,
        date_display: String,
    ) -> (state: Self)
        ensures
            state@ == initial_state(graph_name@, hints_view(hints@), today, date_display@),
    {
        let state = AppState {
            graph_name: graph_name.to_owned(),
            date_display,
            days: Vec::new(),
            current_date: today,
            selected_block: 0,
            cursor_col: 0,
            loading: true,
            loading_more: false,
            status_message: Some("Loading today's notes...".to_owned()),
            hints,
            should_quit: false,
            refresh_counter: 0,
            input_mode: InputMode::Normal,
            pending_key: None,
            block_ref_cache: StringMap::new(),
            pending_block_refs: StringSet::new(),
            autocomplete: None,
            search: None,
            quick_switcher: None,
            slash_menu: None,
            page_title_cache: Vec::new(),
            undo_stack: Vec::new(),
            redo_stack: Vec::new(),
            show_help: false,
            view_mode: ViewMode::DailyNotes,
            nav_history: Vec::new(),
            nav_index: 0,
            link_picker: None,
            error_popup: None,
            linked_refs: StringMap::new(),
        };
        proof {
            assert(state@.days =~= Seq::<DailyNoteView>::empty());
            assert(state@.page_title_cache =~= Seq::<(Seq<char>, Seq<char>)>::empty());
            assert(state@.undo_stack =~= Seq::<UndoView>::empty());
            assert(state@.redo_stack =~= Seq::<UndoView>::empty());
            assert(state@.nav_history =~= Seq::<SnapshotView>::empty());
        }
        state
    }

    /// Visible blocks of all pages.
    pub fn flat_block_count(&self) -> (n: usize)
        requires
            flat_count(self@.days) <= usize::MAX,
        ensures
            n == flat_count(self@.days),
    {
        let ghost d = self@.days;
        let mut n: usize = 0;
        let mut i: usize = 0;
        proof {
            assert(d.skip(0) =~= d);
        }
        while i < self.days.len()
            invariant
                i <= self.days.len(),
                d == self@.days,
                d.len() == self.days.len(),
                flat_count(d) <= usize::MAX,
                n + flat_count(d.skip(i as int)) == flat_count(d),
            decreases self.days.len() - i,
        {
            proof {
                assert(d.skip(i as int).skip(1) =~= d.skip(i + 1));
            }
            n = n + crate::blocks::count_blocks_recursive(&self.days[i].blocks);
            i += 1;
        }
        n
    }

    /// Rows of all pages, references included: the positions that the cursor
    /// can take.
    pub fn total_navigable_count(&self) -> (n: usize)
        requires
            total_rows(self@.days, self@.linked_refs) <= usize::MAX,
        ensures
            n == total_rows(self@.days, self@.linked_refs),
    {
        let ghost d = self@.days;
        let ghost lr = self@.linked_refs;
        let mut total: usize = 0;
        let mut i: usize = 0;
        proof {
            assert(d.skip(0) =~= d);
        }
        while i < self.days.len()
            invariant
                i <= self.days.len(),
                d == self@.days,
                lr == self@.linked_refs,
                d.len() == self.days.len(),
                total_rows(d, lr) <= usize::MAX,
                total + total_rows(d.skip(i as int), lr) == total_rows(d, lr),
            decreases self.days.len() - i,
        {
            proof {
                assert(d.skip(i as int).skip(1) =~= d.skip(i + 1));
            }
            total = total + crate::blocks::count_blocks_recursive(&self.days[i].blocks);
            total = total + crate::blocks::section_count_for(
                &self.linked_refs,
                self.days[i].title.as_str(),
            );
            i += 1;
        }
        total
    }

    /// What row `index` shows of a section of references; none where the row
    /// shows a block or lies past the last row.
    pub fn resolve_linked_ref_item(&self, index: usize) -> (r: Option<LinkedRefItem>)
        requires
            total_rows(self@.days, self@.linked_refs) <= usize::MAX,
        ensures
            r matches Some(item) ==> ref_item_in_days(
                self@.days,
                self@.linked_refs,
                index as nat,
            ) == Some(item@),
            r is None ==> ref_item_in_days(self@.days, self@.linked_refs, index as nat) is None,
    {
        let ghost d = self@.days;
        let ghost lr = self@.linked_refs;
        let mut pos: usize = 0;
        let mut i: usize = 0;
        proof {
            assert(d.skip(0) =~= d);
        }
        while i < self.days.len()
            invariant
                i <= self.days.len(),
                d == self@.days,
                lr == self@.linked_refs,
                d.len() == self.days.len(),
                total_rows(d, lr) <= usize::MAX,
                pos + total_rows(d.skip(i as int), lr) == total_rows(d, lr),
                pos <= index,
                ref_item_in_days(d, lr, index as nat) == ref_item_in_days(
                    d.skip(i as int),
                    lr,
                    (index - pos) as nat,
                ),
            decreases self.days.len() - i,
        {
            proof {
                assert(d.skip(i as int).skip(1) =~= d.skip(i + 1));
            }
            let block_count = crate::blocks::count_blocks_recursive(&self.days[i].blocks);
            if index < pos + block_count {
                return None;
            }
            pos = pos + block_count;
            match self.linked_refs.get(self.days[i].title.as_str()) {
                Some(section) => {
                    let lr_count = linked_ref_section_count(section);
                    if lr_count > 0 && index < pos + lr_count {
                        return resolve_within_linked_refs(section, index - pos);
                    }
                    pos = pos + lr_count;
                },
                None => {},
            }
            i += 1;
        }
        None
    }

    /// Title of the first page that has references and whose rows end after
    /// row `index`.
    pub fn linked_ref_day_at(&self, index: usize) -> (r: Option<String>)
        requires
            total_rows(self@.days, self@.linked_refs) <= usize::MAX,
        ensures
            r matches Some(t) ==> ref_day_in_days(self@.days, self@.linked_refs, index as int)
                == Some(t@),
            r is None ==> ref_day_in_days(self@.days, self@.linked_refs, index as int) is None,
    {
        let ghost d = self@.days;
        let ghost lr = self@.linked_refs;
        let mut pos: usize = 0;
        let mut i: usize = 0;
        proof {
            assert(d.skip(0) =~= d);
        }
        while i < self.days.len()
            invariant
                i <= self.days.len(),
                d == self@.days,
                lr == self@.linked_refs,
                d.len() == self.days.len(),
                total_rows(d, lr) <= usize::MAX,
                pos + total_rows(d.skip(i as int), lr) == total_rows(d, lr),
                ref_day_in_days(d, lr, index as int) == ref_day_in_days(
                    d.skip(i as int),
                    lr,
                    index - pos,
                ),
            decreases self.days.len() - i,
        {
            proof {
                assert(d.skip(i as int).skip(1) =~= d.skip(i + 1));
            }
            pos = pos + crate::blocks::count_blocks_recursive(&self.days[i].blocks);
            match self.linked_refs.get(self.days[i].title.as_str()) {
                Some(section) => {
                    let lr_count = linked_ref_section_count(section);
                    if lr_count > 0 && index < pos + lr_count {
                        return Some(self.days[i].title.clone());
                    }
                    pos = pos + lr_count;
                },
                None => {},
            }
            i += 1;
        }
        None
    }
}

/// What reaches the outline from outside: a key, an answer of the remote
/// service, or a tick of the timer.
#[derive(Debug, PartialEq)]
pub enum AppMessage {
    Key(crate::keys::KeyEvent),
    DailyNoteLoaded(DailyNote),
    PageLoaded(DailyNote),
    RefreshLoaded(DailyNote),
    /// The uid of a block and its text.
    BlockRefResolved(String, String),
    /// The title of a page and the references to it.
    LinkedRefsLoaded(String, Vec<LinkedRefGroup>),
    ApiError(crate::error::ErrorInfo),
    Tick,
}

} // verus!
