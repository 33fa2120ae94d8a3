//! Queries over the history, and items as database rows.

use vstd::prelude::*;

use crate::bytes::{be_bytes, be_round_trip, lemma_pow256, pow256};
use crate::content::{
    bytes_of_id, flags_allow_remote, id_of_bytes, tag_from, tag_of, BlobId, ContentFlags,
    ContentId, ContentItem, ContentKind, ContentStatus, DeviceId, ItemMetadata, ManifestId,
    PayloadRef,
};
use crate::storage::outbox::{clamp_limit, page_limit};
use crate::text::{
    chars_of, copy_range, is_white_space, same_text, text_of, trim, trimmed,
    trimming_takes_white_space_alone,
};

verus! {

/// What to list of the history.
#[derive(Debug)]
pub struct HistoryQuery {
    pub kind: Option<ContentKind>,
    pub favorite_only: bool,
    pub query: Option<String>,
    pub limit: u32,
    pub before_ms: Option<i64>,
    pub before_id: Option<ContentId>,
}

impl HistoryQuery {
    /// The latest items, at most `limit` of them.
    pub fn recent(limit: u32) -> (r: HistoryQuery)
        ensures
            r.limit == limit,
            r.kind is None,
            !r.favorite_only,
            r.query is None,
            r.before_ms is None,
            r.before_id is None,
    {
        HistoryQuery {
            kind: None,
            favorite_only: false,
            query: None,
            limit,
            before_ms: None,
            before_id: None,
        }
    }
}

/// The text that a query searches for, if it searches for one.
pub open spec fn search_text(q: HistoryQuery) -> Option<Seq<char>> {
    match q.query {
        Some(s) => if trimmed(s@).len() > 0 {
            Some(trimmed(s@))
        } else {
            None
        },
        None => None,
    }
}

/// How the text of a query is searched for: in the full-text index if it has at
/// least three characters, else by pattern.
#[derive(Debug)]
pub enum TextSearch {
    All,
    Fts(String),
    Like(String),
}

/// A character that the full-text index would take as an operator.
pub open spec fn is_fts_operator(c: char) -> bool {
    c == '"' || c == '*' || c == '(' || c == ')'
}

/// A text without the operators of the full-text index.
pub open spec fn without_operators(s: Seq<char>) -> Seq<char>
    decreases s.len(),
{
    if s.len() == 0 {
        Seq::empty()
    } else {
        let before = without_operators(s.drop_last());
        if is_fts_operator(s.last()) {
            before
        } else {
            before.push(s.last())
        }
    }
}

/// The full-text expression for a text: one quoted phrase.
pub open spec fn fts_phrase(s: Seq<char>) -> Seq<char> {
    seq!['"'] + without_operators(s) + seq!['"']
}

/// How a character is written in a pattern so that it stands for itself.
pub open spec fn like_char(c: char) -> Seq<char> {
    if c == '\\' || c == '%' || c == '_' {
        seq!['\\', c]
    } else {
        seq![c]
    }
}

/// A text as a pattern that matches just this text.
pub open spec fn like_escaped(s: Seq<char>) -> Seq<char>
    decreases s.len(),
{
    if s.len() == 0 {
        Seq::empty()
    } else {
        like_escaped(s.drop_last()) + like_char(s.last())
    }
}

/// The full-text expression for a text: one quoted phrase.
pub fn escape_fts(raw: &str) -> (r: String)
    ensures
        r@ == fts_phrase(raw@),
{
    let cs = chars_of(raw);
    let mut out = String::new();
    out.push('"');
    let mut i: usize = 0;
    assert(raw@.take(0).len() == 0);
    assert(out@ =~= seq!['"'] + without_operators(raw@.take(0)));
    while i < cs.len()
        invariant
            i <= cs@.len(),
            cs@ == raw@,
            out@ == seq!['"'] + without_operators(raw@.take(i as int)),
        decreases cs@.len() - i,
    {
        let c = cs[i];
        let ghost before = out@;
        proof {
            assert(raw@.take(i + 1).drop_last() =~= raw@.take(i as int));
        }
        if c != '"' && c != '*' && c != '(' && c != ')' {
            out.push(c);
        }
        assert(out@ =~= seq!['"'] + without_operators(raw@.take(i + 1)));
        i += 1;
    }
    assert(raw@.take(i as int) =~= raw@);
    out.push('"');
    assert(out@ =~= fts_phrase(raw@));
    out
}

/// A text as a pattern that matches just this text.
pub fn escape_like(raw: &str) -> (r: String)
    ensures
        r@ == like_escaped(raw@),
{
    let cs = chars_of(raw);
    let mut out = String::new();
    let mut i: usize = 0;
    assert(raw@.take(0).len() == 0);
    while i < cs.len()
        invariant
            i <= cs@.len(),
            cs@ == raw@,
            out@ == like_escaped(raw@.take(i as int)),
        decreases cs@.len() - i,
    {
        let c = cs[i];
        let ghost before = out@;
        proof {
            assert(raw@.take(i + 1).drop_last() =~= raw@.take(i as int));
        }
        if c == '\\' || c == '%' || c == '_' {
            out.push('\\');
        }
        out.push(c);
        assert(out@ =~= before + like_char(c));
        i += 1;
    }
    assert(raw@.take(i as int) =~= raw@);
    out
}

impl HistoryQuery {
    /// How the text of the query is searched for.
    pub fn text_search(&self) -> (r: TextSearch)
        ensures
            match search_text(*self) {
                None => r is All,
                Some(t) => if t.len() >= 3 {
                    r matches TextSearch::Fts(e) && e@ == fts_phrase(t)
                } else {
                    r matches TextSearch::Like(p) && p@ == seq!['%'] + like_escaped(t) + seq!['%']
                },
            },
    {
        match &self.query {
            None => TextSearch::All,
            Some(q) => {
                let t = trim(q.as_str());
                let n: usize = chars_of(t.as_str()).len();
                if n == 0 {
                    TextSearch::All
                } else if n >= 3 {
                    TextSearch::Fts(escape_fts(t.as_str()))
                } else {
                    let mut p = String::new();
                    p.push('%');
                    let e = escape_like(t.as_str());
                    p.push_str(e.as_str());
                    p.push('%');
                    assert(p@ =~= seq!['%'] + like_escaped(t@) + seq!['%']);
                    TextSearch::Like(p)
                }
            },
        }
    }
}

/// Whether one item comes before another in a listing: by time, and among items
/// of the same time by identity.
pub open spec fn precedes(a: ContentItem, b: ContentItem, newest_first: bool) -> bool {
    if newest_first {
        a.created_at_ms > b.created_at_ms || (a.created_at_ms == b.created_at_ms && a.id.raw
            > b.id.raw)
    } else {
        a.created_at_ms < b.created_at_ms || (a.created_at_ms == b.created_at_ms && a.id.raw
            < b.id.raw)
    }
}

/// Whether an item is past a listing's cursor.
pub open spec fn past_cursor(
    item: ContentItem,
    before_ms: Option<i64>,
    before_id: Option<ContentId>,
) -> bool {
    match before_ms {
        None => true,
        Some(ms) => item.created_at_ms < ms || (item.created_at_ms == ms && before_id is Some
            && item.id.raw < before_id->0.raw),
    }
}

/// Whether an item belongs in a listing. `hits` are the items in which the
/// search found the text of the query; they count if there is such a text.
pub open spec fn is_listed(item: ContentItem, q: HistoryQuery, hits: Seq<ContentId>) -> bool {
    &&& q.kind is Some ==> item.kind == q.kind->0
    &&& q.favorite_only ==> item.flags.favorite
    &&& past_cursor(item, q.before_ms, q.before_id)
    &&& search_text(q) is Some ==> hits.contains(item.id)
}

/// Whether an item waits to be sent to other devices.
pub open spec fn awaits_sync(item: ContentItem) -> bool {
    &&& item.status is Local || item.status is Uploading || item.status is Failed
    &&& flags_allow_remote(item.flags)
}

/// Whether no two items have the same identity.
pub open spec fn distinct_ids(items: Seq<ContentItem>) -> bool {
    forall|i: int, j: int| 0 <= i < j < items.len() ==> (#[trigger] items[i]).id != (
    #[trigger] items[j]).id
}

/// Whether `page` holds the first `n` of the wanted items, in order: all of them
/// if there are fewer.
pub open spec fn is_page(
    items: Seq<ContentItem>,
    wanted: spec_fn(ContentItem) -> bool,
    newest_first: bool,
    n: nat,
    page: Seq<ContentItem>,
) -> bool {
    &&& page.len() <= n
    &&& forall|i: int| 0 <= i < page.len() ==> items.contains(#[trigger] page[i]) && wanted(page[i])
    &&& forall|i: int, j: int|
        0 <= i < j < page.len() ==> precedes(#[trigger] page[i], #[trigger] page[j], newest_first)
    &&& forall|k: int|
        0 <= k < items.len() && wanted(#[trigger] items[k]) ==> page.contains(items[k]) || (
        page.len() == n && forall|i: int|
            0 <= i < page.len() ==> precedes(#[trigger] page[i], items[k], newest_first))
}

/// Whether positions are in listing order and without repetition.
spec fn in_order(items: Seq<ContentItem>, order: Seq<usize>, newest_first: bool) -> bool {
    &&& forall|i: int| 0 <= i < order.len() ==> (#[trigger] order[i]) < items.len()
    &&& forall|i: int, j: int|
        0 <= i < j < order.len() ==> precedes(
            items[(#[trigger] order[i]) as int],
            items[(#[trigger] order[j]) as int],
            newest_first,
        )
}

fn comes_before(a: &ContentItem, b: &ContentItem, newest_first: bool) -> (r: bool)
    ensures
        r == precedes(*a, *b, newest_first),
{
    if newest_first {
        a.created_at_ms > b.created_at_ms || (a.created_at_ms == b.created_at_ms && a.id.raw
            > b.id.raw)
    } else {
        a.created_at_ms < b.created_at_ms || (a.created_at_ms == b.created_at_ms && a.id.raw
            < b.id.raw)
    }
}

/// Puts position `i` in its place among ordered positions.
fn place(items: &Vec<ContentItem>, order: &mut Vec<usize>, i: usize, newest_first: bool)
    requires
        distinct_ids(items@),
        i < items@.len(),
        in_order(items@, old(order)@, newest_first),
        forall|j: int| 0 <= j < old(order)@.len() ==> (#[trigger] old(order)@[j]) < i,
    ensures
        in_order(items@, final(order)@, newest_first),
        final(order)@.len() == old(order)@.len() + 1,
        forall|x: usize| #[trigger]
            final(order)@.contains(x) <==> old(order)@.contains(x) || x == i,
{
    let ghost before = order@;
    let mut p: usize = order.len();
    while p > 0 && comes_before(&items[i], &items[order[p - 1]], newest_first)
        invariant
            p <= order@.len(),
            order@ == before,
            i < items@.len(),
            in_order(items@, before, newest_first),
            forall|j: int|
                p <= j < before.len() ==> precedes(
                    items@[i as int],
                    items@[(#[trigger] before[j]) as int],
                    newest_first,
                ),
        decreases p,
    {
        p -= 1;
    }
    order.insert(p, i);
    proof {
        let after = order@;
        assert(after == before.insert(p as int, i));
        assert forall|a: int| 0 <= a < p implies precedes(
            items@[(#[trigger] before[a]) as int],
            items@[i as int],
            newest_first,
        ) by {
            let last = before[p - 1];
            assert(items@[last as int].id != items@[i as int].id);
            assert(precedes(items@[last as int], items@[i as int], newest_first));
            if a < p - 1 {
                assert(precedes(items@[before[a] as int], items@[last as int], newest_first));
            }
        }
        assert forall|a: int, b: int| 0 <= a < b < after.len() implies precedes(
            items@[(#[trigger] after[a]) as int],
            items@[(#[trigger] after[b]) as int],
            newest_first,
        ) by {
            let a0 = if a < p { a } else { a - 1 };
            let b0 = if b < p { b } else { b - 1 };
            if a != p {
                assert(after[a] == before[a0]);
            }
            if b != p {
                assert(after[b] == before[b0]);
            }
        }
        assert forall|a: int| 0 <= a < after.len() implies (#[trigger] after[a]) < items@.len() by {
            if a < p {
                assert(after[a] == before[a]);
            } else if a > p {
                assert(after[a] == before[a - 1]);
            }
        }
        assert forall|x: usize| #[trigger] after.contains(x) <==> before.contains(x) || x == i by {
            if after.contains(x) {
                let a = choose|a: int| 0 <= a < after.len() && after[a] == x;
                if a < p {
                    assert(before[a] == x);
                } else if a > p {
                    assert(before[a - 1] == x);
                }
            }
            if before.contains(x) {
                let a = choose|a: int| 0 <= a < before.len() && before[a] == x;
                if a < p {
                    assert(after[a] == x);
                } else {
                    assert(after[a + 1] == x);
                }
            }
            assert(after[p as int] == i);
        }
    }
}

/// Whether an identity is among some.
fn among(ids: &[ContentId], id: ContentId) -> (r: bool)
    ensures
        r == ids@.contains(id),
{
    let mut i: usize = 0;
    while i < ids.len()
        invariant
            i <= ids@.len(),
            forall|j: int| 0 <= j < i ==> ids@[j] != id,
        decreases ids@.len() - i,
    {
        if ids[i] == id {
            assert(ids@[i as int] == id);
            return true;
        }
        i += 1;
    }
    false
}

fn listed(item: &ContentItem, q: &HistoryQuery, has_text: bool, hits: &[ContentId]) -> (r: bool)
    requires
        has_text == (search_text(*q) is Some),
    ensures
        r == is_listed(*item, *q, hits@),
{
    if let Some(kind) = q.kind {
        if item.kind != kind {
            return false;
        }
    }
    if q.favorite_only && !item.flags.favorite {
        return false;
    }
    if let Some(ms) = q.before_ms {
        if item.created_at_ms > ms {
            return false;
        }
        if item.created_at_ms == ms {
            match q.before_id {
                Some(id) => if item.id.raw >= id.raw {
                    return false;
                },
                None => return false,
            }
        }
    }
    !has_text || among(hits, item.id)
}

fn waiting(item: &ContentItem) -> (r: bool)
    ensures
        r == awaits_sync(*item),
{
    let unfinished = match item.status {
        ContentStatus::Local => true,
        ContentStatus::Uploading => true,
        ContentStatus::Failed => true,
        _ => false,
    };
    unfinished && item.flags.remote_allowed && !item.flags.sensitive && !item.flags.local_only
        && !item.flags.transient
}

/// The first `n` of ordered positions as a page.
fn page_of<'a>(
    items: &'a Vec<ContentItem>,
    order: &Vec<usize>,
    n: usize,
    Ghost(wanted): Ghost<spec_fn(ContentItem) -> bool>,
    newest_first: bool,
) -> (r: Vec<&'a ContentItem>)
    requires
        in_order(items@, order@, newest_first),
        forall|k: int| #![trigger items@[k]]
            0 <= k < items@.len() ==> (wanted(items@[k]) <==> order@.contains(k as usize)),
        items@.len() <= usize::MAX,
    ensures
        is_page(items@, wanted, newest_first, n as nat, pointees(r@)),
{
    let mut out: Vec<&'a ContentItem> = Vec::new();
    let mut i: usize = 0;
    while i < order.len() && i < n
        invariant
            i <= order@.len(),
            i <= n,
            out@.len() == i,
            in_order(items@, order@, newest_first),
            forall|j: int| 0 <= j < i ==> *(#[trigger] out@[j]) == items@[order@[j] as int],
        decreases order@.len() - i,
    {
        out.push(&items[order[i]]);
        i += 1;
    }
    proof {
        let page = pointees(out@);
        assert forall|j: int| 0 <= j < page.len() implies items@.contains(#[trigger] page[j])
            && wanted(page[j]) by {
            let k = order@[j] as int;
            assert(page[j] == items@[k]);
            assert(order@.contains(order@[j]));
        }
        assert forall|a: int, b: int| 0 <= a < b < page.len() implies precedes(
            #[trigger] page[a],
            #[trigger] page[b],
            newest_first,
        ) by {
            assert(page[a] == items@[order@[a] as int]);
            assert(page[b] == items@[order@[b] as int]);
        }
        assert forall|k: int| 0 <= k < items@.len() && wanted(#[trigger] items@[k]) implies (
        page.contains(items@[k]) || (page.len() == n && forall|j: int|
            0 <= j < page.len() ==> precedes(#[trigger] page[j], items@[k], newest_first))) by {
            assert(order@.contains(k as usize));
            let o = choose|o: int| 0 <= o < order@.len() && order@[o] == k as usize;
            if o < page.len() {
                assert(page[o] == items@[k]);
            } else {
                assert forall|j: int| 0 <= j < page.len() implies precedes(
                    #[trigger] page[j],
                    items@[k],
                    newest_first,
                ) by {
                    assert(page[j] == items@[order@[j] as int]);
                    assert(items@[order@[o] as int] == items@[k]);
                }
            }
        }
    }
    out
}

/// The values behind references.
pub open spec fn pointees(s: Seq<&ContentItem>) -> Seq<ContentItem> {
    s.map_values(|r: &ContentItem| *r)
}

/// The newest items that a query asks for. `hits` are the items in which the
/// search found the text of the query.
pub fn list_history<'a>(items: &'a Vec<ContentItem>, q: &HistoryQuery, hits: &[ContentId]) -> (r:
    Vec<&'a ContentItem>)
    requires
        distinct_ids(items@),
    ensures
        is_page(
            items@,
            |item: ContentItem| is_listed(item, *q, hits@),
            true,
            page_limit(q.limit),
            pointees(r@),
        ),
{
    let n: usize = clamp_limit(q.limit);
    let has_text = match &q.query {
        Some(s) => {
            let t = trim(s.as_str());
            !t.as_str().is_empty()
        },
        None => false,
    };
    let ghost wanted = |item: ContentItem| is_listed(item, *q, hits@);
    let mut order: Vec<usize> = Vec::new();
    let mut i: usize = 0;
    while i < items.len()
        invariant
            i <= items@.len(),
            distinct_ids(items@),
            has_text == (search_text(*q) is Some),
            wanted == (|item: ContentItem| is_listed(item, *q, hits@)),
            in_order(items@, order@, true),
            forall|j: int| 0 <= j < order@.len() ==> (#[trigger] order@[j]) < i,
            forall|k: int| #![trigger items@[k]]
                0 <= k < i ==> (wanted(items@[k]) <==> order@.contains(k as usize)),
        decreases items@.len() - i,
    {
        let ghost before = order@;
        if listed(&items[i], q, has_text, hits) {
            place(items, &mut order, i, true);
            proof {
                assert forall|j: int| 0 <= j < order@.len() implies (#[trigger] order@[j]) < i + 1 by {
                    assert(order@.contains(order@[j]));
                    if before.contains(order@[j]) {
                        let a = choose|a: int| 0 <= a < before.len() && before[a] == order@[j];
                        assert(before[a] < i);
                    }
                }
            }
        }
        proof {
            assert forall|k: int| #![trigger items@[k]] 0 <= k < i + 1 implies (wanted(items@[k])
                <==> order@.contains(k as usize)) by {
                if k == i {
                    if before.contains(k as usize) {
                        let a = choose|a: int| 0 <= a < before.len() && before[a] == k as usize;
                        assert(before[a] < i);
                    }
                }
            }
        }
        i += 1;
    }
    page_of(items, &order, n, Ghost(wanted), true)
}

/// The oldest items that wait to be sent to other devices.
pub fn list_pending_sync<'a>(items: &'a Vec<ContentItem>, limit: u32) -> (r: Vec<&'a ContentItem>)
    requires
        distinct_ids(items@),
    ensures
        is_page(
            items@,
            |item: ContentItem| awaits_sync(item),
            false,
            page_limit(limit),
            pointees(r@),
        ),
{
    let n: usize = clamp_limit(limit);
    let ghost wanted = |item: ContentItem| awaits_sync(item);
    let mut order: Vec<usize> = Vec::new();
    let mut i: usize = 0;
    while i < items.len()
        invariant
            i <= items@.len(),
            distinct_ids(items@),
            wanted == (|item: ContentItem| awaits_sync(item)),
            in_order(items@, order@, false),
            forall|j: int| 0 <= j < order@.len() ==> (#[trigger] order@[j]) < i,
            forall|k: int| #![trigger items@[k]]
                0 <= k < i ==> (wanted(items@[k]) <==> order@.contains(k as usize)),
        decreases items@.len() - i,
    {
        let ghost before = order@;
        if waiting(&items[i]) {
            place(items, &mut order, i, false);
            proof {
                assert forall|j: int| 0 <= j < order@.len() implies (#[trigger] order@[j]) < i + 1 by {
                    assert(order@.contains(order@[j]));
                    if before.contains(order@[j]) {
                        let a = choose|a: int| 0 <= a < before.len() && before[a] == order@[j];
                        assert(before[a] < i);
                    }
                }
            }
        }
        proof {
            assert forall|k: int| #![trigger items@[k]] 0 <= k < i + 1 implies (wanted(items@[k])
                <==> order@.contains(k as usize)) by {
                if k == i {
                    if before.contains(k as usize) {
                        let a = choose|a: int| 0 <= a < before.len() && before[a] == k as usize;
                        assert(before[a] < i);
                    }
                }
            }
        }
        i += 1;
    }
    page_of(items, &order, n, Ghost(wanted), false)
}

/// Whether one item was made after another, or at the same time and has the greater
/// identity.
pub open spec fn is_newer(a: ContentItem, b: ContentItem) -> bool {
    a.created_at_ms > b.created_at_ms || (a.created_at_ms == b.created_at_ms && a.id.raw
        > b.id.raw)
}

/// The number of entries on a page is what was asked for, but never more than two
/// hundred, and fifty if nothing was asked for.
pub proof fn pages_are_as_long_as_asked(limit: u32)
    ensures
        1 <= limit <= 200 ==> page_limit(limit) == limit,
        limit == 0 ==> page_limit(limit) == 50,
        limit > 200 ==> page_limit(limit) == 200,
{
}

/// A page of the history holds only items of the history that have the kind that was
/// asked for, if one was, are favorites, if only those were asked for, are older than
/// the cursor, if there is one, and were found by the search, if there is a text to
/// search for. The newest come first, none comes twice, and there are no more than
/// asked for.
pub proof fn history_page_shows_what_was_asked_for(
    items: Seq<ContentItem>,
    q: HistoryQuery,
    hits: Seq<ContentId>,
    page: Seq<ContentItem>,
    i: int,
    j: int,
)
    requires
        is_page(
            items,
            |item: ContentItem| is_listed(item, q, hits),
            true,
            page_limit(q.limit),
            page,
        ),
        0 <= i < page.len(),
        0 <= j < page.len(),
    ensures
        items.contains(page[i]),
        q.kind matches Some(kind) ==> page[i].kind == kind,
        q.favorite_only ==> page[i].flags.favorite,
        q.before_ms matches Some(ms) ==> page[i].created_at_ms < ms || (page[i].created_at_ms == ms
            && q.before_id is Some && page[i].id.raw < q.before_id->0.raw),
        q.query is Some && (exists|c: int|
            0 <= c < q.query->0@.len() && !is_white_space(#[trigger] q.query->0@[c]))
            ==> hits.contains(page[i].id),
        i < j ==> is_newer(page[i], page[j]),
        1 <= q.limit <= 200 ==> page.len() <= q.limit,
        q.limit == 0 ==> page.len() <= 50,
        page.len() <= 200,
{
    let wanted = |item: ContentItem| is_listed(item, q, hits);
    assert(wanted(page[i]));
    if let Some(s) = q.query {
        let cut = trimming_takes_white_space_alone(s@);
    }
    if i < j {
        assert(precedes(page[i], page[j], true));
    }
}

/// Nothing that was asked for is missing from a page of the history: an item of the
/// kind that was asked for, marked as a favorite if only those were, older than the
/// cursor, and found by the search if there is a text to search for, is on the page,
/// or the page is full of newer ones.
pub proof fn history_page_leaves_nothing_out(
    items: Seq<ContentItem>,
    q: HistoryQuery,
    hits: Seq<ContentId>,
    page: Seq<ContentItem>,
    k: int,
)
    requires
        is_page(
            items,
            |item: ContentItem| is_listed(item, q, hits),
            true,
            page_limit(q.limit),
            page,
        ),
        0 <= k < items.len(),
        q.kind is None || q.kind == Some(items[k].kind),
        q.favorite_only ==> items[k].flags.favorite,
        q.before_ms is None || items[k].created_at_ms < q.before_ms->0 || (items[k].created_at_ms
            == q.before_ms->0 && q.before_id is Some && items[k].id.raw < q.before_id->0.raw),
        q.query is None || (forall|c: int|
            0 <= c < q.query->0@.len() ==> is_white_space(#[trigger] q.query->0@[c]))
            || hits.contains(items[k].id),
    ensures
        page.contains(items[k]) || {
            &&& page.len() == (if q.limit == 0 {
                50
            } else if q.limit > 200 {
                200
            } else {
                q.limit as nat
            })
            &&& forall|i: int| 0 <= i < page.len() ==> is_newer(#[trigger] page[i], items[k])
        },
{
    let wanted = |item: ContentItem| is_listed(item, q, hits);
    if let Some(s) = q.query {
        let cut = trimming_takes_white_space_alone(s@);
    }
    assert(wanted(items[k]));
    if !page.contains(items[k]) {
        assert forall|i: int| 0 <= i < page.len() implies is_newer(#[trigger] page[i], items[k]) by {
            assert(precedes(page[i], items[k], true));
        }
    }
}

/// A page of the items that wait holds items that have not reached the hub and may
/// leave this device, the oldest first; and each such item is on it, or it is full of
/// older ones.
pub proof fn pending_page_holds_what_waits(
    items: Seq<ContentItem>,
    limit: u32,
    page: Seq<ContentItem>,
    i: int,
    k: int,
)
    requires
        is_page(items, |item: ContentItem| awaits_sync(item), false, page_limit(limit), page),
        0 <= k < items.len(),
    ensures
        ({
            let unsent = |s: ContentStatus|
                s == ContentStatus::Local || s == ContentStatus::Uploading || s
                    == ContentStatus::Failed;
            let leaves = |f: ContentFlags|
                f.remote_allowed && !f.sensitive && !f.local_only && !f.transient;
            &&& 0 <= i < page.len() ==> items.contains(page[i]) && unsent(page[i].status)
                && leaves(page[i].flags)
            &&& 0 <= i && i + 1 < page.len() ==> is_newer(page[i + 1], page[i])
            &&& unsent(items[k].status) && leaves(items[k].flags) ==> page.contains(items[k]) || (
            page.len() == page_limit(limit) && (0 <= i < page.len() ==> is_newer(
                items[k],
                page[i],
            )))
        }),
{
    let wanted = |item: ContentItem| awaits_sync(item);
    if 0 <= i < page.len() {
        assert(wanted(page[i]));
    }
    if 0 <= i && i + 1 < page.len() {
        assert(precedes(page[i], page[i + 1], false));
    }
    assert(wanted(items[k]) == awaits_sync(items[k]));
    if wanted(items[k]) && !page.contains(items[k]) && 0 <= i < page.len() {
        assert(precedes(page[i], items[k], false));
    }
}

/// What is searched for in the full-text index is the text without quotes, stars and
/// brackets, as one quoted phrase.
pub proof fn phrase_drops_operators_alone(s: Seq<char>)
    ensures
        fts_phrase(s) == seq!['"'] + s.filter(
            |c: char| !(c == '"' || c == '*' || c == '(' || c == ')'),
        ) + seq!['"'],
{
    lemma_without_operators(s);
}

proof fn lemma_without_operators(s: Seq<char>)
    ensures
        without_operators(s) == s.filter(
            |c: char| !(c == '"' || c == '*' || c == '(' || c == ')'),
        ),
    decreases s.len(),
{
    reveal(Seq::filter);
    if s.len() > 0 {
        lemma_without_operators(s.drop_last());
    }
}

/// The text that a pattern matches in which each backslash makes the next character
/// stand for itself, if no character in it stands for others.
pub open spec fn pattern_text(p: Seq<char>) -> Option<Seq<char>>
    decreases p.len(),
{
    if p.len() == 0 {
        Some(Seq::empty())
    } else if p[0] == '%' || p[0] == '_' {
        None
    } else if p[0] == '\\' {
        if p.len() == 1 {
            None
        } else {
            match pattern_text(p.skip(2)) {
                Some(t) => Some(seq![p[1]] + t),
                None => None,
            }
        }
    } else {
        match pattern_text(p.skip(1)) {
            Some(t) => Some(seq![p[0]] + t),
            None => None,
        }
    }
}

proof fn lemma_pattern_prepend(c: char, p: Seq<char>)
    ensures
        pattern_text(like_char(c) + p) == (match pattern_text(p) {
            Some(t) => Some(seq![c] + t),
            None => None,
        }),
{
    let w = like_char(c) + p;
    if c == '\\' || c == '%' || c == '_' {
        assert(w.skip(2) =~= p);
    } else {
        assert(w.skip(1) =~= p);
    }
}

proof fn lemma_escaped_front(s: Seq<char>)
    requires
        s.len() > 0,
    ensures
        like_escaped(s) == like_char(s[0]) + like_escaped(s.skip(1)),
    decreases s.len(),
{
    if s.len() == 1 {
        assert(s.drop_last() =~= Seq::<char>::empty());
        assert(s.skip(1) =~= Seq::<char>::empty());
        assert(like_escaped(s) =~= like_char(s[0]) + like_escaped(s.skip(1)));
    } else {
        lemma_escaped_front(s.drop_last());
        assert(s.drop_last().skip(1) =~= s.skip(1).drop_last());
        assert(s.skip(1).last() == s.last());
        assert((like_char(s[0]) + like_escaped(s.skip(1).drop_last())) + like_char(s.last())
            =~= like_char(s[0]) + (like_escaped(s.skip(1).drop_last()) + like_char(s.last())));
    }
}

/// The pattern that is searched for matches the text itself and nothing else, whatever
/// characters the text has.
pub proof fn escaped_pattern_matches_the_text(s: Seq<char>)
    ensures
        pattern_text(like_escaped(s)) == Some(s),
    decreases s.len(),
{
    if s.len() > 0 {
        lemma_escaped_front(s);
        escaped_pattern_matches_the_text(s.skip(1));
        lemma_pattern_prepend(s[0], like_escaped(s.skip(1)));
        assert(seq![s[0]] + s.skip(1) =~= s);
    } else {
        assert(like_escaped(s) =~= Seq::<char>::empty());
        assert(s =~= Seq::<char>::empty());
    }
}

/// A query searches for its text without white space around it, and for nothing if
/// there is none or only white space.
pub proof fn search_text_is_what_was_typed(q: HistoryQuery)
    ensures
        q.query is None ==> search_text(q) is None,
        q.query is Some ==> {
            &&& search_text(q) is None <==> forall|c: int|
                0 <= c < q.query->0@.len() ==> is_white_space(#[trigger] q.query->0@[c])
            &&& search_text(q) is Some ==> search_text(q)->0 == trimmed(q.query->0@)
        },
{
    if let Some(s) = q.query {
        let cut = trimming_takes_white_space_alone(s@);
    }
}

/// A listing that goes on from the last item of a full page shows exactly what
/// the page left out: nothing twice, and nothing skipped, not even among items
/// of the same time.
pub proof fn next_page_continues(
    items: Seq<ContentItem>,
    q: HistoryQuery,
    next: HistoryQuery,
    hits: Seq<ContentId>,
    page: Seq<ContentItem>,
    k: int,
)
    requires
        distinct_ids(items),
        is_page(
            items,
            |item: ContentItem| is_listed(item, q, hits),
            true,
            page_limit(q.limit),
            page,
        ),
        page.len() == page_limit(q.limit),
        next.kind == q.kind,
        next.favorite_only == q.favorite_only,
        next.query == q.query,
        next.before_ms == Some(page.last().created_at_ms),
        next.before_id == Some(page.last().id),
        0 <= k < items.len(),
    ensures
        is_listed(items[k], next, hits) <==> is_listed(items[k], q, hits) && !page.contains(
            items[k],
        ),
{
    let wanted = |item: ContentItem| is_listed(item, q, hits);
    let last = page.last();
    let x = items[k];
    let n = page.len() as int;
    assert(items.contains(page[n - 1]) && wanted(page[n - 1]));
    assert(wanted(x) == is_listed(x, q, hits));
    if page.contains(x) {
        let i = choose|i: int| 0 <= i < page.len() && page[i] == x;
        if i < n - 1 {
            assert(precedes(page[i], page[n - 1], true));
        }
    } else if wanted(x) {
        assert(precedes(page[n - 1], x, true));
    }
    if is_listed(x, next, hits) {
        assert(past_cursor(last, q.before_ms, q.before_id));
        assert(past_cursor(x, q.before_ms, q.before_id));
    }
}

/// A listing is determined by what is wanted: there is one page of it.
pub proof fn page_is_unique(
    items: Seq<ContentItem>,
    wanted: spec_fn(ContentItem) -> bool,
    newest_first: bool,
    n: nat,
    a: Seq<ContentItem>,
    b: Seq<ContentItem>,
)
    requires
        is_page(items, wanted, newest_first, n, a),
        is_page(items, wanted, newest_first, n, b),
    ensures
        a == b,
{
    lemma_pages_agree(items, wanted, newest_first, n, a, b, a.len());
    lemma_pages_agree(items, wanted, newest_first, n, b, a, b.len());
    assert(a =~= b);
}

/// The first `k` items of a page are those of any other page.
proof fn lemma_pages_agree(
    items: Seq<ContentItem>,
    wanted: spec_fn(ContentItem) -> bool,
    newest_first: bool,
    n: nat,
    a: Seq<ContentItem>,
    b: Seq<ContentItem>,
    k: nat,
)
    requires
        is_page(items, wanted, newest_first, n, a),
        is_page(items, wanted, newest_first, n, b),
        k <= a.len(),
    ensures
        k <= b.len(),
        forall|i: int| 0 <= i < k ==> #[trigger] a[i] == b[i],
    decreases k,
{
    if k > 0 {
        let i = k - 1;
        lemma_pages_agree(items, wanted, newest_first, n, a, b, (k - 1) as nat);
        let x = a[i];
        assert(items.contains(x) && wanted(x));
        let at = choose|at: int| 0 <= at < items.len() && items[at] == x;
        assert(wanted(items[at]));
        if b.contains(x) {
            let j = choose|j: int| 0 <= j < b.len() && b[j] == x;
            if j < i {
                assert(a[j] == b[j]);
                assert(precedes(a[j], a[i], newest_first));
            }
        } else {
            assert(b.len() == n);
        }
        assert(i < b.len());
        if a[i] != b[i] {
            let y = b[i];
            assert(precedes(y, x, newest_first));
            assert(items.contains(y) && wanted(y));
            let also = choose|also: int| 0 <= also < items.len() && items[also] == y;
            assert(wanted(items[also]));
            if a.contains(y) {
                let j = choose|j: int| 0 <= j < a.len() && a[j] == y;
                if j < i {
                    assert(a[j] == b[j]);
                    assert(precedes(b[j], b[i], newest_first));
                } else {
                    assert(precedes(a[i], a[j], newest_first));
                }
            } else {
                assert(precedes(a[i], y, newest_first));
            }
        }
    }
}

/// A row of the item table, with the columns that name a kind, a status, a blob
/// or metadata already read, or the reason why they could not be.
#[derive(Debug)]
pub struct ItemRow {
    pub id: Vec<u8>,
    pub device: Vec<u8>,
    pub kind: Result<ContentKind, String>,
    pub created_at_ms: i64,
    pub logical_size: i64,
    pub payload_size: i64,
    pub dedup: Vec<u8>,
    pub flags: ContentFlags,
    pub status: Result<ContentStatus, String>,
    pub metadata: Result<ItemMetadata, String>,
    pub payload_kind: String,
    pub payload_inline: Option<Vec<u8>>,
    pub blob: Result<BlobId, String>,
    pub manifest_id: Option<Vec<u8>>,
}

/// Why a row is no item: the column at fault and what is wrong with it.
#[derive(Debug)]
pub struct RowError {
    pub column: usize,
    pub message: String,
}

/// The column that keeps a row from being an item, if any does. Identities are
/// read first, then the blob that the row names, then kind, status and
/// metadata.
pub open spec fn faulty_column(row: ItemRow) -> Option<(int, Seq<char>)> {
    if row.id@.len() != 16 {
        Some((0, "invalid uuid"@))
    } else if row.device@.len() != 16 {
        Some((1, "invalid uuid"@))
    } else if row.payload_kind@ == "blob"@ && row.blob is Err {
        Some((12, row.blob->Err_0@))
    } else if row.kind is Err {
        Some((2, row.kind->Err_0@))
    } else if row.status is Err {
        Some((8, row.status->Err_0@))
    } else if row.metadata is Err {
        Some((9, row.metadata->Err_0@))
    } else {
        None
    }
}

/// Whether a payload reference is the one that a row names.
pub open spec fn payload_matches(row: ItemRow, p: PayloadRef) -> bool {
    if row.payload_kind@ == "inline"@ {
        p matches PayloadRef::Inline(b) && b@ == (match row.payload_inline {
            Some(v) => v@,
            None => Seq::empty(),
        })
    } else if row.payload_kind@ == "blob"@ {
        p matches PayloadRef::Blob(id) && row.blob == Ok::<BlobId, String>(id)
    } else {
        p matches PayloadRef::FileManifest(m) && m.raw == (match row.manifest_id {
            Some(v) => if v@.len() == 16 {
                crate::bytes::be_value(v@) as int
            } else {
                0
            },
            None => 0,
        })
    }
}

/// Whether an item is the one that a row holds.
pub open spec fn row_holds(row: ItemRow, item: ContentItem) -> bool {
    &&& item.id.raw == crate::bytes::be_value(row.id@)
    &&& item.origin_device_id.raw == crate::bytes::be_value(row.device@)
    &&& row.kind == Ok::<ContentKind, String>(item.kind)
    &&& item.created_at_ms == row.created_at_ms
    &&& item.logical_size == row.logical_size as u64
    &&& item.payload_size == row.payload_size as u64
    &&& item.dedup_tag@ == tag_from(row.dedup@)
    &&& item.flags == row.flags
    &&& row.status == Ok::<ContentStatus, String>(item.status)
    &&& row.metadata == Ok::<ItemMetadata, String>(item.metadata)
    &&& payload_matches(row, item.payload_ref)
}

/// The item that a row holds.
pub fn map_item(row: ItemRow) -> (r: Result<ContentItem, RowError>)
    ensures
        match r {
            Ok(item) => faulty_column(row) is None && row_holds(row, item),
            Err(e) => faulty_column(row) == Some((e.column as int, e.message@)),
        },
{
    let ghost whole = row;
    if row.id.len() != 16 {
        return Err(RowError { column: 0, message: "invalid uuid".to_owned() });
    }
    if row.device.len() != 16 {
        return Err(RowError { column: 1, message: "invalid uuid".to_owned() });
    }
    let id = ContentId { raw: id_of_bytes(row.id.as_slice()) };
    let origin_device_id = DeviceId { raw: id_of_bytes(row.device.as_slice()) };
    let dedup_tag = tag_of(row.dedup.as_slice());
    proof {
        reveal_strlit("inline");
        reveal_strlit("blob");
        assert("inline"@.len() != "blob"@.len());
    }
    let payload_ref = if same_text(row.payload_kind.as_str(), "inline") {
        PayloadRef::Inline(
            match row.payload_inline {
                Some(b) => b,
                None => Vec::new(),
            },
        )
    } else if same_text(row.payload_kind.as_str(), "blob") {
        match row.blob {
            Ok(b) => PayloadRef::Blob(b),
            Err(m) => return Err(RowError { column: 12, message: m }),
        }
    } else {
        let raw: u128 = match &row.manifest_id {
            Some(v) => if v.len() == 16 {
                id_of_bytes(v.as_slice())
            } else {
                0
            },
            None => 0,
        };
        PayloadRef::FileManifest(ManifestId { raw })
    };
    let kind = match row.kind {
        Ok(k) => k,
        Err(m) => return Err(RowError { column: 2, message: m }),
    };
    let status = match row.status {
        Ok(s) => s,
        Err(m) => return Err(RowError { column: 8, message: m }),
    };
    let metadata = match row.metadata {
        Ok(m) => m,
        Err(m) => return Err(RowError { column: 9, message: m }),
    };
    Ok(
        ContentItem {
            id,
            origin_device_id,
            kind,
            created_at_ms: row.created_at_ms,
            logical_size: #[verifier::truncate] (row.logical_size as u64),
            payload_size: #[verifier::truncate] (row.payload_size as u64),
            dedup_tag,
            flags: row.flags,
            status,
            metadata,
            payload_ref,
        },
    )
}

/// Whether a row is how an item is written.
pub open spec fn is_row_of(row: ItemRow, item: ContentItem) -> bool {
    &&& row.id@ == be_bytes(item.id.raw as nat, 16)
    &&& row.device@ == be_bytes(item.origin_device_id.raw as nat, 16)
    &&& row.kind == Ok::<ContentKind, String>(item.kind)
    &&& row.created_at_ms == item.created_at_ms
    &&& row.logical_size == item.logical_size as i64
    &&& row.payload_size == item.payload_size as i64
    &&& row.dedup@ == item.dedup_tag@
    &&& row.flags == item.flags
    &&& row.status == Ok::<ContentStatus, String>(item.status)
    &&& (row.metadata matches Ok(m) && m.same(&item.metadata))
    &&& (match item.payload_ref {
        PayloadRef::Inline(b) => {
            &&& row.payload_kind@ == "inline"@
            &&& (row.payload_inline matches Some(v) && v@ == b@)
            &&& row.blob is Err
            &&& row.manifest_id is None
        },
        PayloadRef::Blob(id) => {
            &&& row.payload_kind@ == "blob"@
            &&& row.payload_inline is None
            &&& (row.blob matches Ok(b) && b.hex@ == id.hex@)
            &&& row.manifest_id is None
        },
        PayloadRef::FileManifest(m) => {
            &&& row.payload_kind@ == "file_manifest"@
            &&& row.payload_inline is None
            &&& row.blob is Err
            &&& (row.manifest_id matches Some(v) && v@ == be_bytes(m.raw as nat, 16))
        },
    })
}

/// The row that an item is written as.
pub fn insert_item(item: &ContentItem) -> (r: ItemRow)
    ensures
        is_row_of(r, *item),
{
    let dedup = copy_range(item.dedup_tag.as_slice(), 0, 32);
    assert(dedup@ =~= item.dedup_tag@);
    let no_blob: Result<BlobId, String> = Err(String::new());
    let (payload_kind, payload_inline, blob, manifest_id): (
        &str,
        Option<Vec<u8>>,
        Result<BlobId, String>,
        Option<Vec<u8>>,
    ) = match &item.payload_ref {
        PayloadRef::Inline(b) => {
            let copy = copy_range(b.as_slice(), 0, b.len());
            assert(copy@ =~= b@);
            ("inline", Some(copy), no_blob, None)
        },
        PayloadRef::Blob(id) => ("blob", None, Ok(BlobId { hex: id.hex.clone() }), None),
        PayloadRef::FileManifest(m) => ("file_manifest", None, no_blob, Some(bytes_of_id(m.raw))),
    };
    ItemRow {
        id: bytes_of_id(item.id.raw),
        device: bytes_of_id(item.origin_device_id.raw),
        kind: Ok(item.kind),
        created_at_ms: item.created_at_ms,
        logical_size: #[verifier::truncate] (item.logical_size as i64),
        payload_size: #[verifier::truncate] (item.payload_size as i64),
        dedup,
        flags: item.flags,
        status: Ok(item.status),
        metadata: Ok(item.metadata.copy()),
        payload_kind: payload_kind.to_owned(),
        payload_inline,
        blob,
        manifest_id,
    }
}

/// Whether two items are the same.
pub open spec fn same_item(a: ContentItem, b: ContentItem) -> bool {
    &&& a.id == b.id
    &&& a.origin_device_id == b.origin_device_id
    &&& a.kind == b.kind
    &&& a.created_at_ms == b.created_at_ms
    &&& a.logical_size == b.logical_size
    &&& a.payload_size == b.payload_size
    &&& a.dedup_tag@ == b.dedup_tag@
    &&& a.flags == b.flags
    &&& a.status == b.status
    &&& a.metadata.same(&b.metadata)
    &&& (match (a.payload_ref, b.payload_ref) {
        (PayloadRef::Inline(x), PayloadRef::Inline(y)) => x@ == y@,
        (PayloadRef::Blob(x), PayloadRef::Blob(y)) => x.hex@ == y.hex@,
        (PayloadRef::FileManifest(x), PayloadRef::FileManifest(y)) => x == y,
        _ => false,
    })
}

/// Reading the row that an item was written as gives the item.
pub proof fn row_restores_item(item: ContentItem, row: ItemRow, read: ContentItem)
    requires
        is_row_of(row, item),
        row_holds(row, read),
    ensures
        faulty_column(row) is None,
        same_item(read, item),
{
    lemma_id_bound();
    be_round_trip(item.id.raw as nat, 16);
    be_round_trip(item.origin_device_id.raw as nat, 16);
    let logical = item.logical_size;
    assert((logical as i64) as u64 == logical) by (bit_vector);
    let payload = item.payload_size;
    assert((payload as i64) as u64 == payload) by (bit_vector);
    reveal_strlit("inline");
    reveal_strlit("blob");
    reveal_strlit("file_manifest");
    assert("inline"@.len() == 6 && "blob"@.len() == 4 && "file_manifest"@.len() == 13);
    if let PayloadRef::FileManifest(m) = item.payload_ref {
        be_round_trip(m.raw as nat, 16);
    }
}

/// An item that was written as a row and is read again has every field it had.
pub proof fn row_keeps_every_field(item: ContentItem, row: ItemRow, read: ContentItem)
    requires
        is_row_of(row, item),
        row_holds(row, read),
    ensures
        read.id.raw == item.id.raw,
        read.origin_device_id.raw == item.origin_device_id.raw,
        read.kind == item.kind,
        read.created_at_ms == item.created_at_ms,
        read.logical_size == item.logical_size,
        read.payload_size == item.payload_size,
        read.dedup_tag@ == item.dedup_tag@,
        read.flags == item.flags,
        read.status == item.status,
        text_of(read.metadata.text_preview) == text_of(item.metadata.text_preview),
        text_of(read.metadata.source_app) == text_of(item.metadata.source_app),
        read.metadata.image == item.metadata.image,
        (read.metadata.files is Some) == (item.metadata.files is Some),
        item.metadata.files matches Some(f) ==> read.metadata.files->0.root_name@ == f.root_name@
            && read.metadata.files->0.file_count == f.file_count,
        text_of(read.metadata.mime_hint) == text_of(item.metadata.mime_hint),
        text_of(read.metadata.local_cache_rel) == text_of(item.metadata.local_cache_rel),
        match item.payload_ref {
            PayloadRef::Inline(b) => read.payload_ref is Inline && read.payload_ref->Inline_0@ == b@,
            PayloadRef::Blob(id) => read.payload_ref is Blob && read.payload_ref->Blob_0.hex@
                == id.hex@,
            PayloadRef::FileManifest(m) => read.payload_ref == PayloadRef::FileManifest(m),
        },
{
    row_restores_item(item, row, read);
}

/// A row is an item just if its two identities have sixteen bytes, its kind, its
/// status and its metadata could be read, and so could the blob that it names if its
/// contents are in one.
pub proof fn readable_rows_are_items(row: ItemRow)
    ensures
        faulty_column(row) is None <==> {
            &&& row.id@.len() == 16
            &&& row.device@.len() == 16
            &&& row.kind is Ok
            &&& row.status is Ok
            &&& row.metadata is Ok
            &&& row.payload_kind@ == "blob"@ ==> row.blob is Ok
        },
{
}

/// An identity has sixteen bytes.
pub proof fn lemma_id_bound()
    ensures
        pow256(16) == u128::MAX + 1,
{
    lemma_pow256();
    reveal_with_fuel(pow256, 9);
}

/// A page of the history, `r`, shows what was asked for: each of its items has the kind,
/// is a favorite, is behind the cursor and was found, as far as that was asked for, and
/// the newest come first. An item of the history that meets all of that is on the page,
/// unless the page is full of newer ones.
pub proof fn history_answers_the_query(
    items: Vec<ContentItem>,
    q: HistoryQuery,
    hits: &[ContentId],
    r: Vec<&ContentItem>,
    i: int,
    k: int,
)
    requires
        call_ensures(list_history, (&items, &q, hits), r),
        0 <= k < items@.len(),
    ensures
        ({
            let searched = q.query is Some && exists|c: int|
                0 <= c < q.query->0@.len() && !is_white_space(#[trigger] q.query->0@[c]);
            let meets = |item: ContentItem|
                {
                    &&& q.kind is None || q.kind == Some(item.kind)
                    &&& q.favorite_only ==> item.flags.favorite
                    &&& q.before_ms is None || item.created_at_ms < q.before_ms->0 || (
                    item.created_at_ms == q.before_ms->0 && q.before_id is Some && item.id.raw
                        < q.before_id->0.raw)
                    &&& searched ==> hits@.contains(item.id)
                };
            &&& 0 <= i < r@.len() ==> meets(*r@[i]) && items@.contains(*r@[i])
            &&& 0 <= i && i + 1 < r@.len() ==> is_newer(*r@[i], *r@[i + 1])
            &&& 1 <= q.limit <= 200 ==> r@.len() <= q.limit
            &&& meets(items@[k]) ==> pointees(r@).contains(items@[k]) || (r@.len() >= 1 && r@.len()
                == page_limit(q.limit) && (0 <= i < r@.len() ==> is_newer(*r@[i], items@[k])))
        }),
{
    let page = pointees(r@);
    if 0 <= i < r@.len() {
        assert(page[i] == *r@[i]);
        let j = if i + 1 < r@.len() {
            i + 1
        } else {
            i
        };
        assert(page[j] == *r@[j]);
        history_page_shows_what_was_asked_for(items@, q, hits@, page, i, j);
    }
    if page.len() > 0 {
        history_page_shows_what_was_asked_for(items@, q, hits@, page, 0, 0);
    }
    let searched = q.query is Some && exists|c: int|
        0 <= c < q.query->0@.len() && !is_white_space(#[trigger] q.query->0@[c]);
    if (q.kind is None || q.kind == Some(items@[k].kind)) && (q.favorite_only
        ==> items@[k].flags.favorite) && (q.before_ms is None || items@[k].created_at_ms
        < q.before_ms->0 || (items@[k].created_at_ms == q.before_ms->0 && q.before_id is Some
        && items@[k].id.raw < q.before_id->0.raw)) && (searched ==> hits@.contains(items@[k].id)) {
        history_page_leaves_nothing_out(items@, q, hits@, page, k);
    }
}

/// How the text of a query is searched for, `r`: not at all if there is none, by the index
/// if it has at least three characters, and by pattern if it has fewer.
pub proof fn texts_are_searched_for(q: HistoryQuery, r: TextSearch)
    requires
        call_ensures(HistoryQuery::text_search, (&q,), r),
    ensures
        ({
            let typed = match q.query {
                Some(s) => trimmed(s@),
                None => Seq::empty(),
            };
            &&& r is All <==> typed.len() == 0
            &&& r is Fts <==> typed.len() >= 3
            &&& r is Like <==> 1 <= typed.len() <= 2
            &&& r is Fts ==> r->Fts_0@ == fts_phrase(typed)
            &&& r is Like ==> r->Like_0@.len() >= 2 && r->Like_0@[0] == '%' && r->Like_0@.last()
                == '%' && pattern_text(r->Like_0@.subrange(1, r->Like_0@.len() - 1)) == Some(typed)
        }),
{
    search_text_is_what_was_typed(q);
    if let TextSearch::Like(p) = r {
        let t = search_text(q)->0;
        assert(p@.subrange(1, p@.len() - 1) =~= like_escaped(t));
        escaped_pattern_matches_the_text(t);
    }
}

/// A row is read as an item, `r`, whenever it can be, and an item that was written as a
/// row, `row`, comes back with all its fields.
pub proof fn items_survive_the_database(
    item: ContentItem,
    row: ItemRow,
    r: Result<ContentItem, RowError>,
)
    requires
        call_ensures(insert_item, (&item,), row),
        call_ensures(map_item, (row,), r),
    ensures
        r is Ok,
        r->Ok_0.id == item.id,
        r->Ok_0.origin_device_id == item.origin_device_id,
        r->Ok_0.kind == item.kind,
        r->Ok_0.created_at_ms == item.created_at_ms,
        r->Ok_0.logical_size == item.logical_size,
        r->Ok_0.payload_size == item.payload_size,
        r->Ok_0.dedup_tag@ == item.dedup_tag@,
        r->Ok_0.flags == item.flags,
        r->Ok_0.status == item.status,
        r->Ok_0.metadata.same(&item.metadata),
        item.payload_ref matches PayloadRef::Inline(b) ==> r->Ok_0.payload_ref is Inline
            && r->Ok_0.payload_ref->Inline_0@ == b@,
        item.payload_ref matches PayloadRef::Blob(b) ==> r->Ok_0.payload_ref is Blob
            && r->Ok_0.payload_ref->Blob_0.hex@ == b.hex@,
        item.payload_ref matches PayloadRef::FileManifest(m) ==> r->Ok_0.payload_ref
            == PayloadRef::FileManifest(m),
{
    lemma_id_bound();
    be_round_trip(item.id.raw as nat, 16);
    be_round_trip(item.origin_device_id.raw as nat, 16);
    reveal_strlit("inline");
    reveal_strlit("blob");
    reveal_strlit("file_manifest");
    assert("inline"@.len() == 6 && "blob"@.len() == 4 && "file_manifest"@.len() == 13);
    assert(faulty_column(row) is None);
    row_keeps_every_field(item, row, r->Ok_0);
}


/// What waits to be sent, `r`, are items that have not reached the hub and may leave this
/// device, the oldest first; each such item is on the page, or the page is full of older
/// ones.
pub proof fn waiting_items_are_found(
    items: Vec<ContentItem>,
    limit: u32,
    r: Vec<&ContentItem>,
    i: int,
    k: int,
)
    requires
        distinct_ids(items@),
        call_ensures(list_pending_sync, (&items, limit), r),
        0 <= k < items@.len(),
    ensures
        ({
            let unsent = |s: ContentStatus|
                s == ContentStatus::Local || s == ContentStatus::Uploading || s
                    == ContentStatus::Failed;
            let leaves = |f: ContentFlags|
                f.remote_allowed && !f.sensitive && !f.local_only && !f.transient;
            &&& 0 <= i < r@.len() ==> items@.contains(*r@[i]) && unsent(r@[i].status) && leaves(
                r@[i].flags,
            )
            &&& 0 <= i && i + 1 < r@.len() ==> is_newer(*r@[i + 1], *r@[i])
            &&& unsent(items@[k].status) && leaves(items@[k].flags) ==> pointees(r@).contains(
                items@[k],
            ) || (r@.len() == page_limit(limit) && (0 <= i < r@.len() ==> is_newer(
                items@[k],
                *r@[i],
            )))
        }),
{
    let page = pointees(r@);
    if 0 <= i < r@.len() {
        assert(page[i] == *r@[i]);
    }
    if 0 <= i && i + 1 < r@.len() {
        assert(page[i + 1] == *r@[i + 1]);
    }
    pending_page_holds_what_waits(items@, limit, page, i, k);
}

/// The recent items are asked for without any condition.
pub proof fn recent_items_are_all_items(limit: u32, q: HistoryQuery)
    requires
        call_ensures(HistoryQuery::recent, (limit,), q),
    ensures
        q.limit == limit,
        q.kind is None && !q.favorite_only && q.query is None && q.before_ms is None
            && q.before_id is None,
{
}


/// A row that cannot be read is refused, `r`, with the number of the column that is to
/// blame and what is wrong with it; one that can be read gives each column as it stands,
/// with nothing for missing contents.
pub proof fn faulty_columns_are_named(row: ItemRow, r: Result<ContentItem, RowError>)
    requires
        call_ensures(map_item, (row,), r),
    ensures
        r is Err && r->Err_0.column == 0 <==> row.id@.len() != 16,
        r is Err && r->Err_0.column == 1 ==> row.device@.len() != 16,
        r is Err && r->Err_0.column == 2 ==> row.kind is Err && r->Err_0.message@
            == row.kind->Err_0@,
        r is Err && r->Err_0.column == 8 ==> row.status is Err && r->Err_0.message@
            == row.status->Err_0@,
        r is Err && r->Err_0.column == 9 ==> row.metadata is Err && r->Err_0.message@
            == row.metadata->Err_0@,
        r is Err && r->Err_0.column == 12 ==> row.blob is Err && r->Err_0.message@
            == row.blob->Err_0@ && row.payload_kind@ == "blob"@,
        r is Err ==> {
            let c = r->Err_0.column;
            c == 0 || c == 1 || c == 2 || c == 8 || c == 9 || c == 12
        },
        r is Ok ==> {
            let item = r->Ok_0;
            &&& item.flags == row.flags && item.created_at_ms == row.created_at_ms
            &&& row.kind is Ok && item.kind == row.kind->Ok_0
            &&& row.status is Ok && item.status == row.status->Ok_0
            &&& row.metadata is Ok && item.metadata == row.metadata->Ok_0
            &&& row.dedup@.len() == 32 ==> item.dedup_tag@ == row.dedup@
            &&& item.payload_ref is Inline <==> row.payload_kind@ == "inline"@
            &&& item.payload_ref is Blob <==> row.payload_kind@ == "blob"@
            &&& item.payload_ref is Inline && row.payload_inline is None
                ==> item.payload_ref->Inline_0@.len() == 0
            &&& item.payload_ref is FileManifest && row.manifest_id is None
                ==> item.payload_ref->FileManifest_0.raw == 0
        },
{
    reveal_strlit("inline");
    reveal_strlit("blob");
    assert("inline"@.len() == 6 && "blob"@.len() == 4);
}

/// The row of an item has the column for its contents filled and no other.
pub proof fn rows_hold_one_payload(item: ContentItem, row: ItemRow)
    requires
        call_ensures(insert_item, (&item,), row),
    ensures
        row.payload_inline is Some <==> item.payload_ref is Inline,
        row.blob is Ok <==> item.payload_ref is Blob,
        row.manifest_id is Some <==> item.payload_ref is FileManifest,
        row.payload_kind@ == "inline"@ <==> item.payload_ref is Inline,
        row.payload_kind@ == "blob"@ <==> item.payload_ref is Blob,
        row.payload_kind@ == "file_manifest"@ <==> item.payload_ref is FileManifest,
        row.id@.len() == 16 && row.device@.len() == 16 && row.dedup@ == item.dedup_tag@,
{
    reveal_strlit("inline");
    reveal_strlit("blob");
    reveal_strlit("file_manifest");
    assert("inline"@.len() == 6 && "blob"@.len() == 4 && "file_manifest"@.len() == 13);
    lemma_id_bound();
    be_round_trip(item.id.raw as nat, 16);
    be_round_trip(item.origin_device_id.raw as nat, 16);
}


} // verus!
