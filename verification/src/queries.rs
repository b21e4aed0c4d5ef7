use crate::date::{push_year, year_text};
use crate::json::{json_of, JsonView};
use crate::text::{decimal, push_char, push_decimal, push_str};
use vstd::prelude::*;

verus! {

/// A number in at least two decimal digits.
pub open spec fn two_digits(n: nat) -> Seq<char> {
    if n < 10 {
        seq!['0'] + decimal(n)
    } else {
        decimal(n)
    }
}

/// The uid of the page of a day: month, day and year, as in `02-21-2026`.
pub open spec fn daily_uid(month: nat, day: nat, year: int) -> Seq<char> {
    two_digits(month) + seq!['-'] + two_digits(day) + seq!['-'] + year_text(year)
}

/// Appends `n` in at least two decimal digits.
pub fn push_two_digits(s: &mut String, n: u32)
    ensures
        final(s)@ == old(s)@ + two_digits(n as nat),
{
    if n < 10 {
        push_char(s, '0');
        push_decimal(s, n as u64);
        assert(s@ =~= old(s)@ + (seq!['0'] + decimal(n as nat)));
    } else {
        push_decimal(s, n as u64);
    }
}

/// The uid of the page of the given day.
pub fn daily_note_uid_for_date(month: u32, day: u32, year: i32) -> (uid: String)
    ensures
        uid@ == daily_uid(month as nat, day as nat, year as int),
{
    let mut uid = String::new();
    push_two_digits(&mut uid, month);
    push_char(&mut uid, '-');
    push_two_digits(&mut uid, day);
    push_char(&mut uid, '-');
    push_year(&mut uid, year);
    assert(uid@ =~= daily_uid(month as nat, day as nat, year as int));
    uid
}

/// `s` with a backslash before each double quote.
pub open spec fn escaped(s: Seq<char>) -> Seq<char>
    decreases s.len(),
{
    if s.len() == 0 {
        s
    } else if s.last() == '"' {
        escaped(s.drop_last()) + seq!['\\', '"']
    } else {
        escaped(s.drop_last()).push(s.last())
    }
}

/// What stands before the title in the query for the references to a page.
pub open spec fn refs_query_head() -> Seq<char> {
    "[:find ?uid ?s ?page-title :where [?target :node/title \""@
}

/// What stands after the title in the query for the references to a page.
pub open spec fn refs_query_tail() -> Seq<char> {
    "\"] [?b :block/refs ?target] [?b :block/uid ?uid] [?b :block/string ?s] [?b :block/page ?p] [?p :node/title ?page-title]]"@
}

/// The query for the blocks that refer to the page `page_title`, with the
/// pages they are on.
pub fn linked_refs_query(page_title: &str) -> (q: String)
    ensures
        q@ == refs_query_head() + escaped(page_title@) + refs_query_tail(),
{
    let mut q = "[:find ?uid ?s ?page-title :where [?target :node/title \"".to_owned();
    let ghost head = q@;
    for c in it: page_title.chars()
        invariant
            it.seq() == page_title@,
            head == refs_query_head(),
            q@ == head + escaped(it.seq().take(it.index() as int)),
    {
        let ghost done = it.seq().take(it.index() as int);
        let ghost next = it.seq().take(it.index() + 1);
        proof {
            assert(next.drop_last() =~= done);
            assert(next.last() == c);
        }
        if c == '"' {
            push_char(&mut q, '\\');
            push_char(&mut q, '"');
            assert(q@ =~= head + (escaped(done) + seq!['\\', '"']));
        } else {
            push_char(&mut q, c);
            assert(q@ =~= head + escaped(done).push(c));
        }
    }
    proof {
        assert(page_title@.take(page_title@.len() as int) =~= page_title@);
        assert(head + escaped(Seq::<char>::empty()) =~= head) by {
            assert(escaped(Seq::<char>::empty()) =~= Seq::<char>::empty());
        }
    }
    push_str(
        &mut q,
        "\"] [?b :block/refs ?target] [?b :block/uid ?uid] [?b :block/string ?s] [?b :block/page ?p] [?p :node/title ?page-title]]",
    );
    q
}

/// The query for the titles and uids of all pages.
pub fn all_page_titles_query() -> (q: String)
    ensures
        q@ == "[:find ?title ?uid :where [?e :node/title ?title] [?e :block/uid ?uid]]"@,
{
    "[:find ?title ?uid :where [?e :node/title ?title] [?e :block/uid ?uid]]".to_owned()
}

/// What is asked of a page: its uid, title and text, and its blocks with
/// theirs, at every depth.
pub fn page_selector() -> (q: String)
    ensures
        q@ == "[:block/uid :node/title :block/string {:block/children [:block/uid :block/string :block/order :block/open {:block/refs [:block/uid :node/title :block/string]} {:block/children ...}]}]"@,
{
    "[:block/uid :node/title :block/string {:block/children [:block/uid :block/string :block/order :block/open {:block/refs [:block/uid :node/title :block/string]} {:block/children ...}]}]".to_owned()
}

/// The JSON string that holds `s`.
///
/// Rests on the variant `String` of `serde_json::Value`, which holds a text
/// as it is.
#[verifier::external_body]
pub(crate) fn json_string(s: String) -> (v: serde_json::Value)
    ensures
        json_of(v) == JsonView::Text(s@),
{
    serde_json::Value::String(s)
}

/// What names an entity by the attribute `attribute` and the value `value`.
pub open spec fn entity_ref(attribute: Seq<char>, value: Seq<char>) -> Seq<char> {
    seq!['['] + attribute + " \""@ + value + "\"]"@
}

/// What names an entity by the attribute `attribute` and the value `value`.
pub fn entity_selector(attribute: &str, value: &str) -> (r: String)
    ensures
        r@ == entity_ref(attribute@, value@),
{
    let mut r = String::new();
    push_char(&mut r, '[');
    push_str(&mut r, attribute);
    push_str(&mut r, " \"");
    push_str(&mut r, value);
    push_str(&mut r, "\"]");
    assert(r@ =~= entity_ref(attribute@, value@));
    r
}

/// What is asked to get the page of a day by its uid: the entity and what
/// is wanted of it.
pub fn pull_daily_note(uid: &str) -> (r: (serde_json::Value, String))
    ensures
        json_of(r.0) == JsonView::Text(entity_ref(":block/uid"@, uid@)),
        r.1@ == "[:block/uid :node/title :block/string {:block/children [:block/uid :block/string :block/order :block/open {:block/refs [:block/uid :node/title :block/string]} {:block/children ...}]}]"@,
{
    let eid = json_string(entity_selector(":block/uid", uid));
    (eid, page_selector())
}

/// What is asked to get a page by its title: the entity and what is wanted
/// of it.
pub fn pull_page_by_title(title: &str) -> (r: (serde_json::Value, String))
    ensures
        json_of(r.0) == JsonView::Text(entity_ref(":node/title"@, title@)),
        r.1@ == "[:block/uid :node/title :block/string {:block/children [:block/uid :block/string :block/order :block/open {:block/refs [:block/uid :node/title :block/string]} {:block/children ...}]}]"@,
{
    let eid = json_string(entity_selector(":node/title", title));
    (eid, page_selector())
}

/// What is asked to get the text of a block by its uid: the entity and
/// what is wanted of it.
pub fn pull_block_text(uid: &str) -> (r: (serde_json::Value, String))
    ensures
        json_of(r.0) == JsonView::Text(entity_ref(":block/uid"@, uid@)),
        r.1@ == "[:block/string]"@,
{
    let eid = json_string(entity_selector(":block/uid", uid));
    (eid, "[:block/string]".to_owned())
}

} // verus!
