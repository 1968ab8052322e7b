//! Lists of conversations, and what is made of them.
use vstd::prelude::*;

use crate::bytes::{lossy_text, lossy_utf8};
use crate::clock::Stamp;
use crate::error::{AppCommandError, AppErrorCode, ErrorView};
use crate::models::{
    AgentConversationCount, AgentStats, AgentType, ConversationStatus, ConversationSummary,
    FolderInfo, SidebarData,
};
use crate::sorting::{inserted, keyed_by, second, stable_sort, stable_sorted};
use crate::text::{
    contains, contains_text, lowercase, opt_view, same_text, to_lowercase, trim, trimmed,
};

verus! {

// ---------------------------------------------------------------------------
// Listing
// ---------------------------------------------------------------------------

/// The order of a list of conversations.
#[derive(Clone, Copy, PartialEq, Eq, Structural, Debug)]
pub enum SortOrder {
    Newest,
    Oldest,
    Messages,
}

/// The order that a request names; the newest come first unless it names another.
pub open spec fn sort_order(name: Option<Seq<char>>) -> SortOrder {
    if name == Some("oldest"@) {
        SortOrder::Oldest
    } else if name == Some("messages"@) {
        SortOrder::Messages
    } else {
        SortOrder::Newest
    }
}

/// The key by which conversations are sorted.
pub open spec fn conversation_key(order: SortOrder) -> spec_fn(ConversationSummary) -> int {
    |c: ConversationSummary|
        match order {
            SortOrder::Newest => -c.started_at.rank(),
            SortOrder::Oldest => c.started_at.rank(),
            SortOrder::Messages => -(c.message_count as int),
        }
}

/// The two stand for the same conversation.
pub open spec fn same_conversation(a: ConversationSummary, b: ConversationSummary) -> bool {
    a.agent_type == b.agent_type && a.id@ == b.id@
}

/// The conversation occurs in the list.
pub open spec fn occurs_in(c: ConversationSummary, list: Seq<ConversationSummary>) -> bool {
    exists|i: int| 0 <= i < list.len() && same_conversation(#[trigger] list[i], c)
}

/// The text is there and contains `query`, whatever the case.
pub open spec fn mentions(text: Option<String>, query: Seq<char>) -> bool {
    match text {
        Some(s) => contains_text(lowercase(s@), lowercase(query)),
        None => false,
    }
}

/// The conversation is one that a search for `query` finds.
pub open spec fn found_by(c: ConversationSummary, query: Seq<char>) -> bool {
    mentions(c.title, query) || mentions(c.folder_name, query) || mentions(c.folder_path, query)
        || mentions(c.git_branch, query) || mentions(c.model, query)
}

/// A conversation as it was listed, and whether it took place in the folder that the
/// request names.
#[derive(Debug)]
pub struct ListedConversation {
    pub summary: ConversationSummary,
    pub in_folder: bool,
}

/// The conversation is one that the request asks for.
pub open spec fn wanted(l: ListedConversation, search: Option<Seq<char>>, by_folder: bool) -> bool {
    &&& search matches Some(query) ==> found_by(l.summary, query)
    &&& by_folder ==> l.in_folder
}

/// The conversations of all listings, one after the other. A listing that failed is
/// `None`.
pub open spec fn all_listed(listings: Seq<Option<Vec<ListedConversation>>>) -> Seq<
    ListedConversation,
>
    decreases listings.len(),
{
    if listings.len() == 0 {
        Seq::empty()
    } else {
        all_listed(listings.drop_last()) + match listings.last() {
            Some(list) => list@,
            None => Seq::empty(),
        }
    }
}

/// The list without what occurred before.
pub open spec fn first_listed(list: Seq<ListedConversation>) -> Seq<ListedConversation>
    decreases list.len(),
{
    if list.len() == 0 {
        list
    } else {
        let before = list.drop_last();
        if occurs_in(list.last().summary, summaries(before)) {
            first_listed(before)
        } else {
            first_listed(before).push(list.last())
        }
    }
}

/// The conversations of a list.
pub open spec fn summaries(list: Seq<ListedConversation>) -> Seq<ConversationSummary> {
    list.map_values(|l: ListedConversation| l.summary)
}

/// The conversations of a list that the request asks for, in order.
pub open spec fn selected(
    list: Seq<ListedConversation>,
    search: Option<Seq<char>>,
    by_folder: bool,
) -> Seq<ConversationSummary>
    decreases list.len(),
{
    if list.len() == 0 {
        Seq::empty()
    } else if wanted(list.last(), search, by_folder) {
        selected(list.drop_last(), search, by_folder).push(list.last().summary)
    } else {
        selected(list.drop_last(), search, by_folder)
    }
}

/// What a request for conversations gives: every conversation once, as it was first
/// listed, as far as the request asks for it, in the order that it names.
pub open spec fn listed(
    listings: Seq<Option<Vec<ListedConversation>>>,
    search: Option<Seq<char>>,
    by_folder: bool,
    sort_by: Option<Seq<char>>,
) -> Seq<ConversationSummary> {
    stable_sorted(
        selected(first_listed(all_listed(listings)), search, by_folder),
        conversation_key(sort_order(sort_by)),
    )
}

/// The agents whose conversations a request asks for, in the order of their listing.
pub open spec fn agents_of(filter: Option<AgentType>) -> Seq<AgentType> {
    match filter {
        Some(agent) => seq![agent],
        None => seq![
            AgentType::ClaudeCode,
            AgentType::Codex,
            AgentType::OpenCode,
            AgentType::Gemini,
            AgentType::OpenClaw,
            AgentType::Cline,
        ],
    }
}

/// The agents whose conversations a request asks for.
pub fn agents_to_list(filter: Option<AgentType>) -> (r: Vec<AgentType>)
    ensures
        r@ == agents_of(filter),
{
    let mut out: Vec<AgentType> = Vec::new();
    match filter {
        Some(agent) => {
            out.push(agent);
        },
        None => {
            out.push(AgentType::ClaudeCode);
            out.push(AgentType::Codex);
            out.push(AgentType::OpenCode);
            out.push(AgentType::Gemini);
            out.push(AgentType::OpenClaw);
            out.push(AgentType::Cline);
        },
    }
    assert(out@ =~= agents_of(filter));
    out
}

fn order_of(sort_by: Option<&str>) -> (r: SortOrder)
    ensures
        r == sort_order(crate::json::opt_str(sort_by)),
{
    match sort_by {
        Some(name) => {
            if same_text(name, "oldest") {
                SortOrder::Oldest
            } else if same_text(name, "messages") {
                SortOrder::Messages
            } else {
                SortOrder::Newest
            }
        },
        None => SortOrder::Newest,
    }
}

fn mentioned(text: &Option<String>, query_lower: &str, Ghost(query): Ghost<Seq<char>>) -> (r: bool)
    requires
        query_lower@ == lowercase(query),
    ensures
        r == mentions(*text, query),
{
    match text {
        Some(s) => contains(to_lowercase(s.as_str()).as_str(), query_lower),
        None => false,
    }
}

/// Whether a search finds the conversation. `query_lower` is the lowercase form of what
/// is searched for.
fn is_found(c: &ConversationSummary, query_lower: &str, Ghost(query): Ghost<Seq<char>>) -> (r: bool)
    requires
        query_lower@ == lowercase(query),
    ensures
        r == found_by(*c, query),
{
    mentioned(&c.title, query_lower, Ghost(query)) || mentioned(
        &c.folder_name,
        query_lower,
        Ghost(query),
    ) || mentioned(&c.folder_path, query_lower, Ghost(query)) || mentioned(
        &c.git_branch,
        query_lower,
        Ghost(query),
    ) || mentioned(&c.model, query_lower, Ghost(query))
}

fn has_conversation(list: &Vec<ListedConversation>, c: &ConversationSummary) -> (r: bool)
    ensures
        r == occurs_in(*c, summaries(list@)),
{
    let ghost all = summaries(list@);
    let mut i: usize = 0;
    while i < list.len()
        invariant
            i <= list@.len(),
            all == summaries(list@),
            forall|k: int| 0 <= k < i ==> !same_conversation(#[trigger] all[k], *c),
        decreases list.len() - i,
    {
        assert(all[i as int] == list@[i as int].summary);
        if list[i].summary.agent_type == c.agent_type && same_text(
            list[i].summary.id.as_str(),
            c.id.as_str(),
        ) {
            assert(same_conversation(all[i as int], *c));
            return true;
        }
        i = i + 1;
    }
    false
}

/// What was kept of a list says which conversations occurred in it.
proof fn lemma_first_listed_covers(list: Seq<ListedConversation>, c: ConversationSummary)
    ensures
        occurs_in(c, summaries(first_listed(list))) == occurs_in(c, summaries(list)),
    decreases list.len(),
{
    if list.len() > 0 {
        let before = list.drop_last();
        lemma_first_listed_covers(before, c);
        let all = summaries(list);
        let rest = summaries(before);
        let kept = summaries(first_listed(before));
        let now = summaries(first_listed(list));
        assert(all =~= rest.push(list.last().summary));
        if occurs_in(c, rest) {
            let k = choose|k: int| 0 <= k < rest.len() && same_conversation(#[trigger] rest[k], c);
            assert(same_conversation(all[k], c));
        }
        if occurs_in(c, all) && !occurs_in(c, rest) {
            let k = choose|k: int| 0 <= k < all.len() && same_conversation(#[trigger] all[k], c);
            if k < rest.len() {
                assert(same_conversation(rest[k], c));
            }
        }
        if occurs_in(list.last().summary, rest) {
            if same_conversation(list.last().summary, c) {
                let k = choose|k: int|
                    0 <= k < rest.len() && same_conversation(
                        #[trigger] rest[k],
                        list.last().summary,
                    );
                assert(same_conversation(rest[k], c));
            }
        } else {
            assert(now =~= kept.push(list.last().summary));
            if occurs_in(c, kept) {
                let k = choose|k: int|
                    0 <= k < kept.len() && same_conversation(#[trigger] kept[k], c);
                assert(same_conversation(now[k], c));
            }
            if same_conversation(list.last().summary, c) {
                assert(same_conversation(now[now.len() - 1], c));
                assert(same_conversation(all[all.len() - 1], c));
            }
            if occurs_in(c, now) && !occurs_in(c, kept) {
                let k = choose|k: int| 0 <= k < now.len() && same_conversation(#[trigger] now[k], c);
                if k < kept.len() {
                    assert(same_conversation(kept[k], c));
                }
            }
        }
    }
}

fn keep_first(
    kept: Vec<ListedConversation>,
    list: Vec<ListedConversation>,
    Ghost(before): Ghost<Seq<ListedConversation>>,
) -> (r: Vec<ListedConversation>)
    requires
        kept@ == first_listed(before),
    ensures
        r@ == first_listed(before + list@),
{
    let ghost all = list@;
    let mut out: Vec<ListedConversation> = kept;
    assert(before + all.take(0) =~= before);
    for l in it: list
        invariant
            it.seq() == all,
            out@ == first_listed(before + all.take(it.index())),
    {
        let ghost seen = before + all.take(it.index());
        let ghost next = before + all.take(it.index() + 1);
        proof {
            assert(next.drop_last() =~= seen);
            assert(next.last() == l);
            lemma_first_listed_covers(seen, l.summary);
        }
        if !has_conversation(&out, &l.summary) {
            out.push(l);
        }
    }
    assert(all.take(all.len() as int) =~= all);
    out
}

fn first_of_all(listings: Vec<Option<Vec<ListedConversation>>>) -> (r: Vec<ListedConversation>)
    ensures
        r@ == first_listed(all_listed(listings@)),
{
    let ghost all = listings@;
    let mut out: Vec<ListedConversation> = Vec::new();
    assert(all_listed(all.take(0)) =~= Seq::<ListedConversation>::empty());
    assert(first_listed(all_listed(all.take(0))) =~= out@);
    for listing in it: listings
        invariant
            it.seq() == all,
            out@ == first_listed(all_listed(all.take(it.index()))),
    {
        let ghost before = all_listed(all.take(it.index()));
        proof {
            assert(all.take(it.index() + 1).drop_last() =~= all.take(it.index()));
            assert(all.take(it.index() + 1).last() == listing);
        }
        match listing {
            Some(list) => {
                out = keep_first(out, list, Ghost(before));
            },
            None => {
                assert(before + Seq::<ListedConversation>::empty() =~= before);
            },
        }
    }
    assert(all.take(all.len() as int) =~= all);
    out
}

fn select(list: Vec<ListedConversation>, search: Option<&str>, by_folder: bool) -> (r: Vec<
    ConversationSummary,
>)
    ensures
        r@ == selected(list@, crate::json::opt_str(search), by_folder),
{
    let ghost all = list@;
    let ghost query = crate::json::opt_str(search);
    let lower: Option<String> = match search {
        Some(q) => Some(to_lowercase(q)),
        None => None,
    };
    let mut out: Vec<ConversationSummary> = Vec::new();
    assert(all.take(0) =~= Seq::<ListedConversation>::empty());
    for l in it: list
        invariant
            it.seq() == all,
            query == crate::json::opt_str(search),
            opt_view(lower) == (match query {
                Some(q) => Some(lowercase(q)),
                None => None,
            }),
            out@ == selected(all.take(it.index()), query, by_folder),
    {
        proof {
            assert(all.take(it.index() + 1).drop_last() =~= all.take(it.index()));
            assert(all.take(it.index() + 1).last() == l);
        }
        let found: bool = match &lower {
            Some(q) => is_found(&l.summary, q.as_str(), Ghost(query->0)),
            None => true,
        };
        if found && (!by_folder || l.in_folder) {
            out.push(l.summary);
        }
    }
    assert(all.take(all.len() as int) =~= all);
    out
}

fn sort_conversations(list: Vec<ConversationSummary>, order: SortOrder) -> (r: Vec<
    ConversationSummary,
>)
    ensures
        r@ == stable_sorted(list@, conversation_key(order)),
{
    let ghost all = list@;
    let ghost key = conversation_key(order);
    let mut pairs: Vec<(i128, ConversationSummary)> = Vec::new();
    assert(second(pairs@) =~= all.take(0));
    for c in it: list
        invariant
            it.seq() == all,
            key == conversation_key(order),
            keyed_by(pairs@, key),
            second(pairs@) == all.take(it.index()),
    {
        let rank: i128 = match order {
            SortOrder::Newest => -c.started_at.order_key(),
            SortOrder::Oldest => c.started_at.order_key(),
            SortOrder::Messages => -(c.message_count as i128),
        };
        let ghost before = pairs@;
        pairs.push((rank, c));
        proof {
            assert(second(pairs@) =~= second(before).push(c));
            assert(second(before).push(c) =~= all.take(it.index() + 1));
        }
    }
    assert(all.take(all.len() as int) =~= all);
    stable_sort(pairs, Ghost(key))
}

/// The conversations that a request asks for. `listings` holds what each agent's record
/// gave, in the order of [`agents_to_list`]; `by_folder` tells whether the request names
/// a folder.
pub fn list_conversations_sync(
    listings: Vec<Option<Vec<ListedConversation>>>,
    search: Option<&str>,
    by_folder: bool,
    sort_by: Option<&str>,
) -> (r: Vec<ConversationSummary>)
    ensures
        r@ == listed(
            listings@,
            crate::json::opt_str(search),
            by_folder,
            crate::json::opt_str(sort_by),
        ),
{
    let first: Vec<ListedConversation> = first_of_all(listings);
    let chosen: Vec<ConversationSummary> = select(first, search, by_folder);
    sort_conversations(chosen, order_of(sort_by))
}

proof fn lemma_first_listed_distinct(list: Seq<ListedConversation>)
    ensures
        forall|i: int, j: int|
            0 <= i < j < first_listed(list).len() ==> !same_conversation(
                (#[trigger] first_listed(list)[i]).summary,
                (#[trigger] first_listed(list)[j]).summary,
            ),
    decreases list.len(),
{
    if list.len() > 0 {
        let before = list.drop_last();
        lemma_first_listed_distinct(before);
        lemma_first_listed_covers(before, list.last().summary);
        let kept = first_listed(before);
        let now = first_listed(list);
        assert forall|i: int, j: int| 0 <= i < j < now.len() implies !same_conversation(
            (#[trigger] now[i]).summary,
            (#[trigger] now[j]).summary,
        ) by {
            assert(now[i] == kept[i]);
            if j < kept.len() {
                assert(now[j] == kept[j]);
            } else {
                assert(summaries(kept)[i] == kept[i].summary);
            }
        }
    }
}

proof fn lemma_selected_distinct(
    list: Seq<ListedConversation>,
    search: Option<Seq<char>>,
    by_folder: bool,
)
    requires
        forall|i: int, j: int|
            0 <= i < j < list.len() ==> !same_conversation(
                (#[trigger] list[i]).summary,
                (#[trigger] list[j]).summary,
            ),
    ensures
        forall|i: int|
            0 <= i < selected(list, search, by_folder).len() ==> exists|k: int|
                0 <= k < list.len() && list[k].summary == #[trigger] selected(
                    list,
                    search,
                    by_folder,
                )[i] && wanted(list[k], search, by_folder),
        forall|i: int, j: int|
            0 <= i < j < selected(list, search, by_folder).len() ==> !same_conversation(
                #[trigger] selected(list, search, by_folder)[i],
                #[trigger] selected(list, search, by_folder)[j],
            ),
    decreases list.len(),
{
    if list.len() > 0 {
        let before = list.drop_last();
        assert forall|i: int, j: int| 0 <= i < j < before.len() implies !same_conversation(
            (#[trigger] before[i]).summary,
            (#[trigger] before[j]).summary,
        ) by {
            assert(before[i] == list[i] && before[j] == list[j]);
        }
        lemma_selected_distinct(before, search, by_folder);
        let rest = selected(before, search, by_folder);
        let now = selected(list, search, by_folder);
        assert forall|i: int| 0 <= i < now.len() implies exists|k: int|
            0 <= k < list.len() && list[k].summary == #[trigger] now[i] && wanted(
                list[k],
                search,
                by_folder,
            ) by {
            if i < rest.len() {
                assert(now[i] == rest[i]);
                let k = choose|k: int|
                    0 <= k < before.len() && before[k].summary == rest[i] && wanted(
                        before[k],
                        search,
                        by_folder,
                    );
                assert(list[k].summary == now[i]);
            } else {
                assert(list[list.len() - 1].summary == now[i]);
            }
        }
        assert forall|i: int, j: int| 0 <= i < j < now.len() implies !same_conversation(
            #[trigger] now[i],
            #[trigger] now[j],
        ) by {
            assert(now[i] == rest[i]);
            if j < rest.len() {
                assert(now[j] == rest[j]);
            } else {
                let k = choose|k: int|
                    0 <= k < before.len() && before[k].summary == rest[i] && wanted(
                        before[k],
                        search,
                        by_folder,
                    );
                assert(list[k] == before[k]);
                assert(now[j] == list[list.len() - 1].summary);
            }
        }
    }
}

proof fn lemma_sorted_comes_from<T>(s: Seq<T>, key: spec_fn(T) -> int, x: T)
    ensures
        stable_sorted(s, key).contains(x) == s.contains(x),
{
    broadcast use vstd::seq_lib::group_to_multiset_ensures;

    crate::sorting::law_sort_keeps_items(s, key);
    assert(s.contains(x) <==> s.to_multiset().count(x) > 0);
    assert(stable_sorted(s, key).contains(x) <==> stable_sorted(s, key).to_multiset().count(x) > 0);
}

proof fn lemma_selected_has(
    list: Seq<ListedConversation>,
    search: Option<Seq<char>>,
    by_folder: bool,
    at: int,
)
    requires
        0 <= at < list.len(),
        wanted(list[at], search, by_folder),
    ensures
        selected(list, search, by_folder).contains(list[at].summary),
    decreases list.len(),
{
    let before = list.drop_last();
    let now = selected(list, search, by_folder);
    if at == list.len() - 1 {
        assert(now[now.len() - 1] == list[at].summary);
    } else {
        lemma_selected_has(before, search, by_folder, at);
        let rest = selected(before, search, by_folder);
        let k = choose|k: int| 0 <= k < rest.len() && rest[k] == before[at].summary;
        assert(now[k] == list[at].summary);
    }
}

proof fn lemma_first_listed_is_listed(list: Seq<ListedConversation>)
    ensures
        forall|i: int|
            0 <= i < first_listed(list).len() ==> list.contains(#[trigger] first_listed(list)[i]),
    decreases list.len(),
{
    if list.len() > 0 {
        let before = list.drop_last();
        lemma_first_listed_is_listed(before);
        let kept = first_listed(before);
        let now = first_listed(list);
        assert forall|i: int| 0 <= i < now.len() implies list.contains(#[trigger] now[i]) by {
            if i < kept.len() {
                assert(now[i] == kept[i]);
                let k = choose|k: int| 0 <= k < before.len() && before[k] == kept[i];
                assert(list[k] == now[i]);
            } else {
                assert(list[list.len() - 1] == now[i]);
            }
        }
    }
}

/// A request is answered with what it asks for and with nothing else: whatever is in
/// the answer was listed and is asked for, and whatever is kept of the listings and
/// asked for is in the answer.
pub proof fn law_answer_is_what_was_asked_for(
    listings: Seq<Option<Vec<ListedConversation>>>,
    search: Option<Seq<char>>,
    by_folder: bool,
    sort_by: Option<Seq<char>>,
    c: ConversationSummary,
)
    ensures
        listed(listings, search, by_folder, sort_by).contains(c) <==> exists|l: ListedConversation|
            #![trigger wanted(l, search, by_folder)]
            first_listed(all_listed(listings)).contains(l) && l.summary == c && wanted(
                l,
                search,
                by_folder,
            ),
{
    let kept = first_listed(all_listed(listings));
    let chosen = selected(kept, search, by_folder);
    lemma_first_listed_distinct(all_listed(listings));
    lemma_selected_distinct(kept, search, by_folder);
    lemma_sorted_comes_from(chosen, conversation_key(sort_order(sort_by)), c);
    if chosen.contains(c) {
        let i = choose|i: int| 0 <= i < chosen.len() && chosen[i] == c;
        let k = choose|k: int|
            0 <= k < kept.len() && kept[k].summary == chosen[i] && wanted(
                kept[k],
                search,
                by_folder,
            );
        assert(kept.contains(kept[k]));
    }
    if exists|l: ListedConversation|
        #![trigger wanted(l, search, by_folder)]
        kept.contains(l) && l.summary == c && wanted(l, search, by_folder) {
        let l = choose|l: ListedConversation|
            #![trigger wanted(l, search, by_folder)]
            kept.contains(l) && l.summary == c && wanted(l, search, by_folder);
        let k = choose|k: int| 0 <= k < kept.len() && kept[k] == l;
        lemma_selected_has(kept, search, by_folder, k);
    }
}

/// No conversation is left out of consideration: one that was listed is kept, once,
/// as it was first listed.
pub proof fn law_every_conversation_is_kept_once(list: Seq<ListedConversation>, at: int)
    requires
        0 <= at < list.len(),
    ensures
        exists|i: int|
            0 <= i < first_listed(list).len() && same_conversation(
                (#[trigger] first_listed(list)[i]).summary,
                list[at].summary,
            ),
        forall|i: int, j: int|
            0 <= i < j < first_listed(list).len() ==> !same_conversation(
                (#[trigger] first_listed(list)[i]).summary,
                (#[trigger] first_listed(list)[j]).summary,
            ),
        forall|i: int|
            0 <= i < first_listed(list).len() ==> list.contains(#[trigger] first_listed(list)[i]),
{
    let c = list[at].summary;
    lemma_first_listed_covers(list, c);
    lemma_first_listed_distinct(list);
    lemma_first_listed_is_listed(list);
    assert(same_conversation(summaries(list)[at], c));
    assert(occurs_in(c, summaries(list)));
    let kept = summaries(first_listed(list));
    let k = choose|k: int| 0 <= k < kept.len() && same_conversation(#[trigger] kept[k], c);
    assert(kept[k] == first_listed(list)[k].summary);
}

/// No conversation stands twice in the list.
pub open spec fn all_distinct(list: Seq<ConversationSummary>) -> bool {
    forall|i: int, j: int|
        0 <= i < j < list.len() ==> !same_conversation(#[trigger] list[i], #[trigger] list[j])
}

proof fn lemma_inserted_distinct(
    s: Seq<ConversationSummary>,
    x: ConversationSummary,
    key: spec_fn(ConversationSummary) -> int,
)
    requires
        all_distinct(s),
        forall|i: int| 0 <= i < s.len() ==> !same_conversation(#[trigger] s[i], x),
    ensures
        all_distinct(inserted(s, x, key)),
        forall|i: int|
            0 <= i < inserted(s, x, key).len() ==> #[trigger] inserted(s, x, key)[i] == x
                || s.contains(inserted(s, x, key)[i]),
    decreases s.len(),
{
    let r = inserted(s, x, key);
    if s.len() == 0 || key(s.last()) <= key(x) {
        assert forall|i: int| 0 <= i < r.len() implies #[trigger] r[i] == x || s.contains(r[i]) by {
            if i < s.len() {
                assert(r[i] == s[i]);
            }
        }
    } else {
        let shorter = s.drop_last();
        lemma_inserted_distinct(shorter, x, key);
        let q = inserted(shorter, x, key);
        assert forall|i: int| 0 <= i < q.len() implies !same_conversation(
            #[trigger] q[i],
            s.last(),
        ) by {
            if q[i] == x {
                assert(!same_conversation(s[s.len() - 1], x));
            } else {
                let k = choose|k: int| 0 <= k < shorter.len() && shorter[k] == q[i];
                assert(!same_conversation(s[k], s[s.len() - 1]));
            }
        }
        assert forall|i: int| 0 <= i < r.len() implies #[trigger] r[i] == x || s.contains(r[i]) by {
            if i < q.len() {
                assert(r[i] == q[i]);
                if q[i] != x {
                    let k = choose|k: int| 0 <= k < shorter.len() && shorter[k] == q[i];
                    assert(s[k] == r[i]);
                }
            } else {
                assert(s[s.len() - 1] == r[i]);
            }
        }
    }
}

proof fn lemma_sorted_distinct(
    s: Seq<ConversationSummary>,
    key: spec_fn(ConversationSummary) -> int,
)
    requires
        all_distinct(s),
    ensures
        all_distinct(stable_sorted(s, key)),
    decreases s.len(),
{
    if s.len() > 0 {
        let shorter = s.drop_last();
        assert forall|i: int, j: int| 0 <= i < j < shorter.len() implies !same_conversation(
            #[trigger] shorter[i],
            #[trigger] shorter[j],
        ) by {
            assert(!same_conversation(s[i], s[j]));
        }
        lemma_sorted_distinct(shorter, key);
        let sorted = stable_sorted(shorter, key);
        assert forall|i: int| 0 <= i < sorted.len() implies !same_conversation(
            #[trigger] sorted[i],
            s.last(),
        ) by {
            lemma_sorted_comes_from(shorter, key, sorted[i]);
            let k = choose|k: int| 0 <= k < shorter.len() && shorter[k] == sorted[i];
            assert(!same_conversation(s[k], s[s.len() - 1]));
        }
        lemma_inserted_distinct(sorted, s.last(), key);
    }
}

/// No conversation stands twice in the answer, however often and by however many agents
/// it was listed.
pub proof fn law_answer_holds_no_conversation_twice(
    listings: Seq<Option<Vec<ListedConversation>>>,
    search: Option<Seq<char>>,
    by_folder: bool,
    sort_by: Option<Seq<char>>,
)
    ensures
        all_distinct(listed(listings, search, by_folder, sort_by)),
{
    let kept = first_listed(all_listed(listings));
    lemma_first_listed_distinct(all_listed(listings));
    lemma_selected_distinct(kept, search, by_folder);
    lemma_sorted_distinct(
        selected(kept, search, by_folder),
        conversation_key(sort_order(sort_by)),
    );
}

/// The answer is in the order that the request names.
pub proof fn law_answer_is_sorted(
    listings: Seq<Option<Vec<ListedConversation>>>,
    search: Option<Seq<char>>,
    by_folder: bool,
    sort_by: Option<Seq<char>>,
    i: int,
    j: int,
)
    requires
        0 <= i <= j < listed(listings, search, by_folder, sort_by).len(),
    ensures
        ({
            let a = listed(listings, search, by_folder, sort_by)[i];
            let b = listed(listings, search, by_folder, sort_by)[j];
            match sort_order(sort_by) {
                SortOrder::Newest => b.started_at.before_or_at(a.started_at),
                SortOrder::Oldest => a.started_at.before_or_at(b.started_at),
                SortOrder::Messages => a.message_count >= b.message_count,
            }
        }),
{
    let key = conversation_key(sort_order(sort_by));
    let chosen = selected(first_listed(all_listed(listings)), search, by_folder);
    crate::sorting::law_sort_is_in_order(chosen, key);
    let r = stable_sorted(chosen, key);
    assert(key(r[i]) <= key(r[j]));
}

// ---------------------------------------------------------------------------
// Folders
// ---------------------------------------------------------------------------

/// The model of a [`FolderInfo`].
#[verifier::ext_equal]
pub struct FolderView {
    pub path: Seq<char>,
    pub name: Seq<char>,
    pub agents: Seq<AgentType>,
    pub count: int,
}

/// The model of a folder.
pub open spec fn folder_view(f: FolderInfo) -> FolderView {
    FolderView {
        path: f.path@,
        name: f.name@,
        agents: f.agent_types@,
        count: f.conversation_count as int,
    }
}

/// The model of a list of folders.
pub open spec fn folder_views(list: Seq<FolderInfo>) -> Seq<FolderView> {
    list.map_values(|f: FolderInfo| folder_view(f))
}

/// The text, or `unknown` where there is none.
pub open spec fn or_unknown(text: Option<String>) -> Seq<char> {
    match text {
        Some(s) => s@,
        None => "unknown"@,
    }
}

/// The position of the folder with the given path.
pub open spec fn folder_at(folders: Seq<FolderView>, path: Seq<char>) -> Option<int>
    decreases folders.len(),
{
    if folders.len() == 0 {
        None
    } else if folders.last().path == path {
        Some(folders.len() - 1)
    } else {
        folder_at(folders.drop_last(), path)
    }
}

/// `agents`, with `agent` at the end unless it is there.
pub open spec fn with_agent(agents: Seq<AgentType>, agent: AgentType) -> Seq<AgentType> {
    if agents.contains(agent) {
        agents
    } else {
        agents.push(agent)
    }
}

/// The folders after one more conversation: its folder counts one more, and is new if it
/// was not there. A new folder is named as the conversation names it.
pub open spec fn with_conversation(folders: Seq<FolderView>, c: ConversationSummary) -> Seq<
    FolderView,
> {
    let path = or_unknown(c.folder_path);
    match folder_at(folders, path) {
        Some(i) => folders.update(
            i,
            FolderView {
                agents: with_agent(folders[i].agents, c.agent_type),
                count: folders[i].count + 1,
                ..folders[i]
            },
        ),
        None => folders.push(
            FolderView {
                path,
                name: or_unknown(c.folder_name),
                agents: seq![c.agent_type],
                count: 1,
            },
        ),
    }
}

/// The folders of the conversations, as they first occur.
pub open spec fn folders_of(list: Seq<ConversationSummary>) -> Seq<FolderView>
    decreases list.len(),
{
    if list.len() == 0 {
        Seq::empty()
    } else {
        with_conversation(folders_of(list.drop_last()), list.last())
    }
}

/// The key by which folders are sorted: those with the most conversations come first.
pub open spec fn folder_key() -> spec_fn(FolderView) -> int {
    |f: FolderView| -f.count
}

proof fn lemma_folder_at(folders: Seq<FolderView>, path: Seq<char>)
    ensures
        match folder_at(folders, path) {
            Some(i) => 0 <= i < folders.len() && folders[i].path == path,
            None => forall|k: int| 0 <= k < folders.len() ==> (#[trigger] folders[k]).path != path,
        },
    decreases folders.len(),
{
    if folders.len() > 0 && folders.last().path != path {
        lemma_folder_at(folders.drop_last(), path);
        if folder_at(folders, path) is None {
            assert forall|k: int| 0 <= k < folders.len() implies (#[trigger] folders[k]).path
                != path by {
                if k < folders.len() - 1 {
                    assert(folders.drop_last()[k] == folders[k]);
                }
            }
        }
    }
}

fn find_folder(folders: &Vec<FolderInfo>, path: &str) -> (r: Option<usize>)
    ensures
        match r {
            Some(i) => folder_at(folder_views(folders@), path@) == Some(i as int) && i
                < folders@.len(),
            None => folder_at(folder_views(folders@), path@) is None,
        },
{
    let ghost all = folder_views(folders@);
    let mut i: usize = folders.len();
    assert(all.take(i as int) =~= all);
    while i > 0
        invariant
            i <= folders@.len(),
            all == folder_views(folders@),
            folder_at(all, path@) == folder_at(all.take(i as int), path@),
        decreases i,
    {
        proof {
            assert(all.take(i as int).drop_last() =~= all.take(i - 1));
            assert(all.take(i as int).last() == folder_view(folders@[i - 1]));
        }
        if same_text(folders[i - 1].path.as_str(), path) {
            return Some(i - 1);
        }
        i = i - 1;
    }
    None
}

fn has_agent(agents: &Vec<AgentType>, agent: AgentType) -> (r: bool)
    ensures
        r == agents@.contains(agent),
{
    let mut i: usize = 0;
    while i < agents.len()
        invariant
            i <= agents@.len(),
            forall|k: int| 0 <= k < i ==> agents@[k] != agent,
        decreases agents.len() - i,
    {
        if agents[i] == agent {
            return true;
        }
        i = i + 1;
    }
    false
}

fn text_or_unknown(text: &Option<String>) -> (r: String)
    ensures
        r@ == or_unknown(*text),
{
    match text {
        Some(s) => s.clone(),
        None => "unknown".to_owned(),
    }
}

fn add_conversation(folders: &mut Vec<FolderInfo>, c: &ConversationSummary)
    requires
        forall|k: int|
            0 <= k < old(folders)@.len() ==> (#[trigger] old(folders)@[k]).conversation_count
                < u32::MAX,
    ensures
        folder_views(final(folders)@) == with_conversation(folder_views(old(folders)@), *c),
{
    let ghost before = folders@;
    let ghost views = folder_views(before);
    let path: String = text_or_unknown(&c.folder_path);
    match find_folder(folders, path.as_str()) {
        Some(i) => {
            let old_entry: FolderInfo = folders.remove(i);
            let mut agent_types: Vec<AgentType> = old_entry.agent_types;
            let ghost known = agent_types@;
            if !has_agent(&agent_types, c.agent_type) {
                agent_types.push(c.agent_type);
            }
            assert(agent_types@ == with_agent(known, c.agent_type));
            let entry = FolderInfo {
                path: old_entry.path,
                name: old_entry.name,
                agent_types,
                conversation_count: old_entry.conversation_count + 1,
            };
            folders.insert(i, entry);
            assert(folder_views(folders@) =~= with_conversation(views, *c));
        },
        None => {
            let name: String = text_or_unknown(&c.folder_name);
            let mut agent_types: Vec<AgentType> = Vec::new();
            agent_types.push(c.agent_type);
            assert(agent_types@ =~= seq![c.agent_type]);
            let entry = FolderInfo { path, name, agent_types, conversation_count: 1 };
            folders.push(entry);
            assert(folder_views(folders@) =~= with_conversation(views, *c));
        },
    }
}

/// The number of conversations in the folder with the given path.
pub open spec fn count_in_folder(list: Seq<ConversationSummary>, path: Seq<char>) -> int
    decreases list.len(),
{
    if list.len() == 0 {
        0
    } else {
        count_in_folder(list.drop_last(), path) + if or_unknown(list.last().folder_path) == path {
            1int
        } else {
            0int
        }
    }
}

/// Every folder stands once in the list, and counts the conversations with its path;
/// every conversation's folder is there.
pub proof fn law_folders_count_conversations(list: Seq<ConversationSummary>)
    ensures
        forall|i: int|
            0 <= i < folders_of(list).len() ==> (#[trigger] folders_of(list)[i]).count
                == count_in_folder(list, folders_of(list)[i].path) && folders_of(list)[i].count > 0,
        forall|i: int, j: int|
            0 <= i < j < folders_of(list).len() ==> (#[trigger] folders_of(list)[i]).path != (
            #[trigger] folders_of(list)[j]).path,
        forall|k: int|
            0 <= k < list.len() ==> folder_at(
                folders_of(list),
                or_unknown((#[trigger] list[k]).folder_path),
            ) is Some,
        folders_of(list).len() <= list.len(),
    decreases list.len(),
{
    if list.len() > 0 {
        let before = list.drop_last();
        law_folders_count_conversations(before);
        let old_folders = folders_of(before);
        let new_folders = folders_of(list);
        let path = or_unknown(list.last().folder_path);
        lemma_folder_at(old_folders, path);
        assert forall|i: int| 0 <= i < new_folders.len() implies (#[trigger] new_folders[i]).count
            == count_in_folder(list, new_folders[i].path) && new_folders[i].count > 0 by {
            match folder_at(old_folders, path) {
                Some(k) => {
                    if i != k {
                        assert(new_folders[i] == old_folders[i]);
                        assert(old_folders[i].path != old_folders[k].path);
                    }
                },
                None => {
                    if i < old_folders.len() {
                        assert(new_folders[i] == old_folders[i]);
                        assert(old_folders[i].path != path);
                    } else {
                        assert forall|k: int| 0 <= k < before.len() implies or_unknown(
                            (#[trigger] before[k]).folder_path,
                        ) != path by {}
                        lemma_count_zero(before, path);
                    }
                },
            }
        }
        assert forall|i: int, j: int| 0 <= i < j < new_folders.len() implies (
        #[trigger] new_folders[i]).path != (#[trigger] new_folders[j]).path by {
            if j < old_folders.len() {
                assert(old_folders[i].path != old_folders[j].path);
            } else {
                assert(old_folders[i].path != path);
            }
        }
        assert forall|k: int| 0 <= k < list.len() implies folder_at(
            new_folders,
            or_unknown((#[trigger] list[k]).folder_path),
        ) is Some by {
            let p = or_unknown(list[k].folder_path);
            lemma_folder_at(new_folders, p);
            if k < before.len() {
                assert(before[k] == list[k]);
                lemma_folder_at(old_folders, p);
                let i = folder_at(old_folders, p)->0;
                assert(new_folders[i].path == p);
            } else {
                match folder_at(old_folders, path) {
                    Some(i) => {
                        assert(new_folders[i].path == p);
                    },
                    None => {
                        assert(new_folders[old_folders.len() as int].path == p);
                    },
                }
            }
        }
    }
}

proof fn lemma_count_zero(list: Seq<ConversationSummary>, path: Seq<char>)
    requires
        forall|k: int|
            0 <= k < list.len() ==> or_unknown((#[trigger] list[k]).folder_path) != path,
    ensures
        count_in_folder(list, path) == 0,
    decreases list.len(),
{
    if list.len() > 0 {
        let before = list.drop_last();
        assert(or_unknown(list[list.len() - 1].folder_path) != path);
        assert forall|k: int| 0 <= k < before.len() implies or_unknown(
            (#[trigger] before[k]).folder_path,
        ) != path by {
            assert(before[k] == list[k]);
        }
        lemma_count_zero(before, path);
    }
}

proof fn lemma_count_bound(list: Seq<ConversationSummary>, path: Seq<char>)
    ensures
        0 <= count_in_folder(list, path) <= list.len(),
    decreases list.len(),
{
    if list.len() > 0 {
        lemma_count_bound(list.drop_last(), path);
    }
}

proof fn lemma_sorted_views(list: Seq<FolderInfo>, key: spec_fn(FolderInfo) -> int)
    requires
        key == (|f: FolderInfo| -(f.conversation_count as int)),
    ensures
        folder_views(stable_sorted(list, key)) == stable_sorted(folder_views(list), folder_key()),
    decreases list.len(),
{
    if list.len() > 0 {
        let before = list.drop_last();
        lemma_sorted_views(before, key);
        lemma_inserted_views(stable_sorted(before, key), list.last(), key);
        assert(folder_views(list).drop_last() =~= folder_views(before));
    } else {
        assert(folder_views(list) =~= Seq::<FolderView>::empty());
    }
}

proof fn lemma_inserted_views(s: Seq<FolderInfo>, x: FolderInfo, key: spec_fn(FolderInfo) -> int)
    requires
        key == (|f: FolderInfo| -(f.conversation_count as int)),
    ensures
        folder_views(crate::sorting::inserted(s, x, key)) == crate::sorting::inserted(
            folder_views(s),
            folder_view(x),
            folder_key(),
        ),
    decreases s.len(),
{
    if s.len() == 0 || key(s.last()) <= key(x) {
        assert(folder_views(s.push(x)) =~= folder_views(s).push(folder_view(x)));
    } else {
        let shorter = s.drop_last();
        lemma_inserted_views(shorter, x, key);
        assert(folder_views(s).drop_last() =~= folder_views(shorter));
        let r = crate::sorting::inserted(shorter, x, key);
        assert(folder_views(r.push(s.last())) =~= folder_views(r).push(folder_view(s.last())));
    }
}

fn sort_folders(folders: Vec<FolderInfo>) -> (r: Vec<FolderInfo>)
    ensures
        folder_views(r@) == stable_sorted(folder_views(folders@), folder_key()),
{
    let ghost all = folders@;
    let ghost key = |f: FolderInfo| -(f.conversation_count as int);
    let mut pairs: Vec<(i128, FolderInfo)> = Vec::new();
    assert(second(pairs@) =~= all.take(0));
    for f in it: folders
        invariant
            it.seq() == all,
            key == (|f: FolderInfo| -(f.conversation_count as int)),
            keyed_by(pairs@, key),
            second(pairs@) == all.take(it.index()),
    {
        let rank: i128 = -(f.conversation_count as i128);
        let ghost before = pairs@;
        pairs.push((rank, f));
        proof {
            assert(second(pairs@) =~= second(before).push(f));
            assert(second(before).push(f) =~= all.take(it.index() + 1));
        }
    }
    proof {
        assert(all.take(all.len() as int) =~= all);
        lemma_sorted_views(all, key);
    }
    stable_sort(pairs, Ghost(key))
}

/// The folders of the conversations, those with the most conversations first. Folders
/// with equally many come as they first occur.
pub fn compute_folders(all_conversations: &Vec<ConversationSummary>) -> (r: Vec<FolderInfo>)
    requires
        all_conversations@.len() <= u32::MAX,
    ensures
        folder_views(r@) == stable_sorted(folders_of(all_conversations@), folder_key()),
{
    let ghost all = all_conversations@;
    let mut folders: Vec<FolderInfo> = Vec::new();
    let mut i: usize = 0;
    assert(folder_views(folders@) =~= folders_of(all.take(0)));
    while i < all_conversations.len()
        invariant
            i <= all_conversations@.len(),
            all == all_conversations@,
            all.len() <= u32::MAX,
            folder_views(folders@) == folders_of(all.take(i as int)),
        decreases all_conversations.len() - i,
    {
        proof {
            assert(all.take(i + 1).drop_last() =~= all.take(i as int));
            law_folders_count_conversations(all.take(i as int));
            assert forall|k: int| 0 <= k < folders@.len() implies (
            #[trigger] folders@[k]).conversation_count < u32::MAX by {
                let f = folders_of(all.take(i as int))[k];
                assert(f == folder_view(folders@[k]));
                lemma_count_bound(all.take(i as int), f.path);
            }
        }
        add_conversation(&mut folders, &all_conversations[i]);
        i = i + 1;
    }
    assert(all.take(i as int) =~= all);
    sort_folders(folders)
}

// ---------------------------------------------------------------------------
// Numbers
// ---------------------------------------------------------------------------

/// The messages of all conversations.
pub open spec fn messages_in(list: Seq<ConversationSummary>) -> int
    decreases list.len(),
{
    if list.len() == 0 {
        0
    } else {
        messages_in(list.drop_last()) + list.last().message_count
    }
}

/// The number of conversations with an agent.
pub open spec fn count_with_agent(list: Seq<ConversationSummary>, agent: AgentType) -> int
    decreases list.len(),
{
    if list.len() == 0 {
        0
    } else {
        count_with_agent(list.drop_last(), agent) + if list.last().agent_type == agent {
            1int
        } else {
            0int
        }
    }
}

/// The agents of the conversations, as they first occur.
pub open spec fn agents_in(list: Seq<ConversationSummary>) -> Seq<AgentType>
    decreases list.len(),
{
    if list.len() == 0 {
        Seq::empty()
    } else {
        with_agent(agents_in(list.drop_last()), list.last().agent_type)
    }
}

/// The number of conversations with each of the agents.
pub open spec fn counts_of(list: Seq<ConversationSummary>, agents: Seq<AgentType>) -> Seq<
    AgentConversationCount,
> {
    agents.map_values(
        |a: AgentType|
            AgentConversationCount {
                agent_type: a,
                conversation_count: count_with_agent(list, a) as u32,
            },
    )
}

/// The key by which agents are sorted: those with the most conversations come first.
pub open spec fn count_key() -> spec_fn(AgentConversationCount) -> int {
    |c: AgentConversationCount| -(c.conversation_count as int)
}

/// The number of conversations with each agent, the most first. Agents with equally many
/// come as they first occur.
pub open spec fn agent_counts(list: Seq<ConversationSummary>) -> Seq<AgentConversationCount> {
    stable_sorted(counts_of(list, agents_in(list)), count_key())
}

/// Every agent of a conversation is listed, and none twice.
pub proof fn law_agents_are_listed_once(list: Seq<ConversationSummary>)
    ensures
        agents_in(list).no_duplicates(),
        forall|k: int|
            0 <= k < list.len() ==> agents_in(list).contains((#[trigger] list[k]).agent_type),
    decreases list.len(),
{
    if list.len() > 0 {
        let before = list.drop_last();
        law_agents_are_listed_once(before);
        let known = agents_in(before);
        let agents = agents_in(list);
        let last = list.last().agent_type;
        assert(agents.contains(last)) by {
            if !known.contains(last) {
                assert(agents[known.len() as int] == last);
            }
        }
        assert forall|k: int| 0 <= k < list.len() implies agents.contains(
            (#[trigger] list[k]).agent_type,
        ) by {
            if k < before.len() {
                assert(before[k] == list[k]);
                let i = choose|i: int| 0 <= i < known.len() && known[i] == list[k].agent_type;
                assert(agents[i] == list[k].agent_type);
            }
        }
    }
}

proof fn lemma_messages_grow(list: Seq<ConversationSummary>, i: int)
    requires
        0 <= i <= list.len(),
    ensures
        0 <= messages_in(list.take(i)) <= messages_in(list),
    decreases list.len() - i, i,
{
    if i < list.len() {
        lemma_messages_grow(list, i + 1);
        assert(list.take(i + 1).drop_last() =~= list.take(i));
        lemma_messages_not_negative(list.take(i));
    } else {
        assert(list.take(i) =~= list);
        lemma_messages_not_negative(list);
    }
}

proof fn lemma_messages_not_negative(list: Seq<ConversationSummary>)
    ensures
        messages_in(list) >= 0,
    decreases list.len(),
{
    if list.len() > 0 {
        lemma_messages_not_negative(list.drop_last());
    }
}

fn count_agent(list: &Vec<ConversationSummary>, agent: AgentType) -> (n: u32)
    requires
        list@.len() <= u32::MAX,
    ensures
        n == count_with_agent(list@, agent),
{
    let ghost all = list@;
    let mut n: u32 = 0;
    let mut i: usize = 0;
    while i < list.len()
        invariant
            i <= list@.len(),
            all == list@,
            all.len() <= u32::MAX,
            n <= i,
            n == count_with_agent(all.take(i as int), agent),
        decreases list.len() - i,
    {
        assert(all.take(i + 1).drop_last() =~= all.take(i as int));
        if list[i].agent_type == agent {
            n = n + 1;
        }
        i = i + 1;
    }
    assert(all.take(i as int) =~= all);
    n
}

fn list_agents(list: &Vec<ConversationSummary>) -> (r: Vec<AgentType>)
    ensures
        r@ == agents_in(list@),
{
    let ghost all = list@;
    let mut out: Vec<AgentType> = Vec::new();
    let mut i: usize = 0;
    assert(out@ =~= agents_in(all.take(0)));
    while i < list.len()
        invariant
            i <= list@.len(),
            all == list@,
            out@ == agents_in(all.take(i as int)),
        decreases list.len() - i,
    {
        assert(all.take(i + 1).drop_last() =~= all.take(i as int));
        if !has_agent(&out, list[i].agent_type) {
            out.push(list[i].agent_type);
        }
        i = i + 1;
    }
    assert(all.take(i as int) =~= all);
    out
}

/// How many conversations and messages there are, and with whom.
pub fn compute_stats(all_conversations: &Vec<ConversationSummary>) -> (r: AgentStats)
    requires
        all_conversations@.len() <= u32::MAX,
        messages_in(all_conversations@) <= u32::MAX,
    ensures
        r.total_conversations == all_conversations@.len(),
        r.total_messages == messages_in(all_conversations@),
        r.by_agent@ == agent_counts(all_conversations@),
{
    let ghost all = all_conversations@;
    let mut total_messages: u32 = 0;
    let mut i: usize = 0;
    while i < all_conversations.len()
        invariant
            i <= all_conversations@.len(),
            all == all_conversations@,
            messages_in(all) <= u32::MAX,
            total_messages == messages_in(all.take(i as int)),
        decreases all_conversations.len() - i,
    {
        proof {
            assert(all.take(i + 1).drop_last() =~= all.take(i as int));
            lemma_messages_grow(all, i + 1);
        }
        total_messages = total_messages + all_conversations[i].message_count;
        i = i + 1;
    }
    assert(all.take(i as int) =~= all);
    let agents: Vec<AgentType> = list_agents(all_conversations);
    let ghost wanted_counts = counts_of(all, agents@);
    let ghost key = count_key();
    let mut pairs: Vec<(i128, AgentConversationCount)> = Vec::new();
    let mut k: usize = 0;
    assert(second(pairs@) =~= wanted_counts.take(0));
    while k < agents.len()
        invariant
            k <= agents@.len(),
            all == all_conversations@,
            all.len() <= u32::MAX,
            wanted_counts == counts_of(all, agents@),
            key == count_key(),
            keyed_by(pairs@, key),
            second(pairs@) == wanted_counts.take(k as int),
        decreases agents.len() - k,
    {
        let n: u32 = count_agent(all_conversations, agents[k]);
        let count = AgentConversationCount { agent_type: agents[k], conversation_count: n };
        let ghost before = pairs@;
        pairs.push((-(n as i128), count));
        proof {
            assert(second(pairs@) =~= second(before).push(count));
            assert(wanted_counts[k as int] == count);
            assert(second(before).push(count) =~= wanted_counts.take(k + 1));
        }
        k = k + 1;
    }
    assert(wanted_counts.take(k as int) =~= wanted_counts);
    let by_agent: Vec<AgentConversationCount> = stable_sort(pairs, Ghost(key));
    AgentStats {
        total_conversations: all_conversations.len() as u32,
        total_messages,
        by_agent,
    }
}

/// What the sidebar shows of the conversations.
pub fn sidebar_data(all_conversations: &Vec<ConversationSummary>) -> (r: SidebarData)
    requires
        all_conversations@.len() <= u32::MAX,
        messages_in(all_conversations@) <= u32::MAX,
    ensures
        folder_views(r.folders@) == stable_sorted(folders_of(all_conversations@), folder_key()),
        r.stats.total_conversations == all_conversations@.len(),
        r.stats.total_messages == messages_in(all_conversations@),
        r.stats.by_agent@ == agent_counts(all_conversations@),
{
    let folders: Vec<FolderInfo> = compute_folders(all_conversations);
    let stats: AgentStats = compute_stats(all_conversations);
    SidebarData { folders, stats }
}

// ---------------------------------------------------------------------------
// Loading a conversation
// ---------------------------------------------------------------------------

/// Why an agent's record of a conversation could not be read.
#[derive(Debug)]
pub enum ParseError {
    /// There is no conversation with this id.
    ConversationNotFound(String),
    /// The record does not make sense, for this reason.
    InvalidData(String),
    /// The file could not be read.
    Io(AppCommandError),
    /// The file is no JSON, for this reason.
    Json(String),
    /// The database failed, for this reason.
    Db(String),
}

/// The error that a command reports for a record that could not be read.
pub open spec fn parse_failure(error: ParseError) -> ErrorView {
    match error {
        ParseError::ConversationNotFound(id) => ErrorView::plain(
            AppErrorCode::NotFound,
            "Conversation not found"@,
        ).with_detail(id@),
        ParseError::InvalidData(message) => ErrorView::plain(
            AppErrorCode::InvalidInput,
            "Invalid conversation data"@,
        ).with_detail(message@),
        ParseError::Io(e) => e@,
        ParseError::Json(message) => ErrorView::plain(
            AppErrorCode::InvalidInput,
            "Failed to parse conversation file"@,
        ).with_detail(message@),
        ParseError::Db(message) => ErrorView::plain(
            AppErrorCode::DatabaseError,
            "Database operation failed"@,
        ).with_detail(message@),
    }
}

/// The error that a command reports for a record that could not be read.
pub fn parse_error_to_app_error(error: ParseError) -> (r: AppCommandError)
    ensures
        r@ == parse_failure(error),
{
    match error {
        ParseError::ConversationNotFound(id) => AppCommandError::not_found(
            "Conversation not found".to_owned(),
        ).with_detail(id),
        ParseError::InvalidData(message) => AppCommandError::invalid_input(
            "Invalid conversation data".to_owned(),
        ).with_detail(message),
        ParseError::Io(e) => e,
        ParseError::Json(message) => AppCommandError::invalid_input(
            "Failed to parse conversation file".to_owned(),
        ).with_detail(message),
        ParseError::Db(message) => AppCommandError::new(
            AppErrorCode::DatabaseError,
            "Database operation failed".to_owned(),
        ).with_detail(message),
    }
}

/// A conversation that may be the one looked for: whether it took place in the same
/// folder, and when it began.
#[derive(Clone, Copy, PartialEq, Eq, Structural, Debug)]
pub struct Candidate {
    pub in_folder: bool,
    pub started_at: Stamp,
}

/// How far apart a conversation and the one looked for may begin, in seconds.
pub const MATCH_WINDOW_SECONDS: i128 = 300;

/// The position of the candidate in the folder that began closest to `created_at`; of
/// several, the first.
pub open spec fn closest(list: Seq<Candidate>, created_at: Stamp) -> Option<int>
    decreases list.len(),
{
    if list.len() == 0 {
        None
    } else {
        let before = closest(list.drop_last(), created_at);
        if !list.last().in_folder {
            before
        } else {
            match before {
                Some(i) => if list.last().started_at.seconds_apart(created_at)
                    < list[i].started_at.seconds_apart(created_at) {
                    Some(list.len() - 1)
                } else {
                    before
                },
                None => Some(list.len() - 1),
            }
        }
    }
}

/// The position of the candidate that is taken for the conversation looked for: the
/// closest, if it is close enough.
pub open spec fn matched(list: Seq<Candidate>, created_at: Stamp) -> Option<int> {
    match closest(list, created_at) {
        Some(i) => if list[i].started_at.seconds_apart(created_at) < MATCH_WINDOW_SECONDS {
            Some(i)
        } else {
            None
        },
        None => None,
    }
}

/// The candidate that is taken for the conversation looked for.
pub fn match_candidate(list: &Vec<Candidate>, created_at: Stamp) -> (r: Option<usize>)
    ensures
        match r {
            Some(i) => matched(list@, created_at) == Some(i as int) && i < list@.len(),
            None => matched(list@, created_at) is None,
        },
{
    let ghost all = list@;
    let mut best: Option<(usize, i128)> = None;
    let mut i: usize = 0;
    while i < list.len()
        invariant
            i <= list@.len(),
            all == list@,
            match best {
                Some((k, d)) => k < i && closest(all.take(i as int), created_at) == Some(k as int)
                    && d == all[k as int].started_at.seconds_apart(created_at),
                None => closest(all.take(i as int), created_at) is None,
            },
        decreases list.len() - i,
    {
        proof {
            assert(all.take(i + 1).drop_last() =~= all.take(i as int));
            assert(all.take(i + 1).last() == all[i as int]);
        }
        if list[i].in_folder {
            let d: i128 = list[i].started_at.seconds_from(created_at);
            match best {
                Some((k, known)) => {
                    if d < known {
                        best = Some((i, d));
                    }
                },
                None => {
                    best = Some((i, d));
                },
            }
        }
        i = i + 1;
    }
    assert(all.take(i as int) =~= all);
    match best {
        Some((k, d)) => {
            if d < MATCH_WINDOW_SECONDS {
                Some(k)
            } else {
                None
            }
        },
        None => None,
    }
}

/// The conversation that is taken for the one looked for took place in its folder,
/// began less than five minutes from it, and no other in the folder began closer.
pub proof fn law_match_is_the_closest(list: Seq<Candidate>, created_at: Stamp, other: int)
    requires
        matched(list, created_at) is Some,
        0 <= other < list.len(),
        list[other].in_folder,
    ensures
        ({
            let i = matched(list, created_at)->0;
            &&& 0 <= i < list.len()
            &&& list[i].in_folder
            &&& list[i].started_at.seconds_apart(created_at) < 300
            &&& list[i].started_at.seconds_apart(created_at)
                <= list[other].started_at.seconds_apart(created_at)
        }),
{
    lemma_closest(list, created_at);
}

proof fn lemma_closest(list: Seq<Candidate>, created_at: Stamp)
    ensures
        match closest(list, created_at) {
            Some(i) => 0 <= i < list.len() && list[i].in_folder && forall|k: int|
                0 <= k < list.len() && (#[trigger] list[k]).in_folder
                    ==> list[i].started_at.seconds_apart(created_at)
                    <= list[k].started_at.seconds_apart(created_at),
            None => forall|k: int| 0 <= k < list.len() ==> !(#[trigger] list[k]).in_folder,
        },
    decreases list.len(),
{
    if list.len() > 0 {
        let before = list.drop_last();
        lemma_closest(before, created_at);
        assert forall|k: int| 0 <= k < before.len() implies #[trigger] list[k] == before[k] by {}
    }
}

/// Whether a conversation took place in a folder. `compared` tells whether its folder and
/// that one are the same; `None` where one of the two is not known.
pub fn took_place_in_folder(compared: Option<bool>) -> (r: bool)
    ensures
        r == (compared == Some(true)),
{
    match compared {
        Some(same) => same,
        None => false,
    }
}

/// A conversation that was loaded: its row, its turns and what is known of its session.
/// The number of its messages is that of its turns, whatever the row says.
#[derive(Debug)]
pub struct LoadedConversation<R, T, S> {
    pub row: R,
    pub message_count: u32,
    pub turns: Vec<T>,
    pub session_stats: Option<S>,
}

/// The number of messages of a conversation with so many turns: that number, cut off to
/// what the count can hold.
pub fn message_count_of(turns: usize) -> (r: u32)
    ensures
        turns <= u32::MAX ==> r == turns,
        r as int == turns as int % 0x1_0000_0000,
{
    let wide: u64 = turns as u64;
    (wide % 0x1_0000_0000) as u32
}

/// What a request for a conversation is answered with, once its turns are known.
pub fn loaded_conversation<R, T, S>(row: R, turns: Vec<T>, session_stats: Option<S>) -> (r:
    LoadedConversation<R, T, S>)
    ensures
        r.row == row,
        turns@.len() <= u32::MAX ==> r.message_count == turns@.len(),
        r.message_count as int == turns@.len() as int % 0x1_0000_0000,
        r.turns == turns,
        r.session_stats == session_stats,
{
    let message_count: u32 = message_count_of(turns.len());
    LoadedConversation { row, message_count, turns, session_stats }
}

/// Loading a conversation: what to do next.
#[derive(Debug)]
pub enum LoadStep {
    /// Read the record under the conversation's own id.
    ReadRecord,
    /// List the agent's conversations to find one that may be the one looked for.
    ListCandidates,
    /// Read the record of the candidate at this position.
    ReadCandidate(usize),
    /// Report the conversation without turns.
    FinishEmpty,
    /// Report the turns of the record that was read.
    Finish,
    /// Report the turns of the candidate's record, and keep its id for the next time.
    FinishAs(usize),
    Fail(AppCommandError),
}

/// The model of a [`LoadStep`].
pub enum LoadView {
    ReadRecord,
    ListCandidates,
    ReadCandidate(int),
    FinishEmpty,
    Finish,
    FinishAs(int),
    Fail(ErrorView),
}

impl View for LoadStep {
    type V = LoadView;

    open spec fn view(&self) -> LoadView {
        match self {
            LoadStep::ReadRecord => LoadView::ReadRecord,
            LoadStep::ListCandidates => LoadView::ListCandidates,
            LoadStep::ReadCandidate(i) => LoadView::ReadCandidate(*i as int),
            LoadStep::FinishEmpty => LoadView::FinishEmpty,
            LoadStep::Finish => LoadView::Finish,
            LoadStep::FinishAs(i) => LoadView::FinishAs(*i as int),
            LoadStep::Fail(e) => LoadView::Fail(e@),
        }
    }
}

/// The agent may keep its record under another id than the one that is known.
pub open spec fn may_rename(agent: AgentType) -> bool {
    agent == AgentType::OpenClaw || agent == AgentType::Cline || agent == AgentType::Gemini
}

/// Begins to load a conversation. One that no agent has an id for has no turns.
pub fn begin_load(has_external_id: bool) -> (r: LoadStep)
    ensures
        r@ == if has_external_id {
            LoadView::ReadRecord
        } else {
            LoadView::FinishEmpty
        },
{
    if has_external_id {
        LoadStep::ReadRecord
    } else {
        LoadStep::FinishEmpty
    }
}

/// What follows the attempt to read the record.
pub open spec fn after_record(agent: AgentType, outcome: Result<(), ParseError>) -> LoadView {
    match outcome {
        Ok(_) => LoadView::Finish,
        Err(ParseError::ConversationNotFound(_)) => if may_rename(agent) {
            LoadView::ListCandidates
        } else {
            LoadView::FinishEmpty
        },
        Err(e) => LoadView::Fail(parse_failure(e)),
    }
}

/// Continues after the attempt to read the record.
pub fn record_read(agent: AgentType, outcome: Result<(), ParseError>) -> (r: LoadStep)
    ensures
        r@ == after_record(agent, outcome),
{
    match outcome {
        Ok(_) => LoadStep::Finish,
        Err(e) => match e {
            ParseError::ConversationNotFound(_) => {
                if agent == AgentType::OpenClaw || agent == AgentType::Cline || agent
                    == AgentType::Gemini {
                    LoadStep::ListCandidates
                } else {
                    LoadStep::FinishEmpty
                }
            },
            other => LoadStep::Fail(parse_error_to_app_error(other)),
        },
    }
}

/// Continues after the agent's conversations were listed; `None` where that failed.
pub fn candidates_listed(list: Option<&Vec<Candidate>>, created_at: Stamp) -> (r: LoadStep)
    ensures
        r@ == (match list {
            Some(candidates) => match matched(candidates@, created_at) {
                Some(i) => LoadView::ReadCandidate(i),
                None => LoadView::FinishEmpty,
            },
            None => LoadView::FinishEmpty,
        }),
{
    match list {
        Some(candidates) => match match_candidate(candidates, created_at) {
            Some(i) => LoadStep::ReadCandidate(i),
            None => LoadStep::FinishEmpty,
        },
        None => LoadStep::FinishEmpty,
    }
}

/// Continues after the attempt to read the candidate's record.
pub fn candidate_read(index: usize, ok: bool) -> (r: LoadStep)
    ensures
        r@ == if ok {
            LoadView::FinishAs(index as int)
        } else {
            LoadView::FinishEmpty
        },
{
    if ok {
        LoadStep::FinishAs(index)
    } else {
        LoadStep::FinishEmpty
    }
}

// ---------------------------------------------------------------------------
// Smaller things
// ---------------------------------------------------------------------------

/// The branch that `git rev-parse --abbrev-ref HEAD` printed; `None` where it failed,
/// printed nothing or there is no branch.
pub open spec fn branch_in(success: bool, stdout: Seq<u8>) -> Option<Seq<char>> {
    let text = trimmed(lossy_utf8(stdout));
    if !success || text.len() == 0 || text == "HEAD"@ {
        None
    } else {
        Some(text)
    }
}

/// The branch that `git rev-parse --abbrev-ref HEAD` printed.
pub fn detect_git_branch(success: bool, stdout: &[u8]) -> (r: Option<String>)
    ensures
        opt_view(r) == branch_in(success, stdout@),
{
    if !success {
        return None;
    }
    branch_of_text(lossy_text(stdout).as_str())
}

/// The branch in the text that was printed.
pub fn branch_of_text(printed: &str) -> (r: Option<String>)
    ensures
        opt_view(r) == (if trimmed(printed@).len() == 0 || trimmed(printed@) == "HEAD"@ {
            None
        } else {
            Some(trimmed(printed@))
        }),
{
    let branch: &str = trim(printed);
    if branch.is_empty() || same_text(branch, "HEAD") {
        return None;
    }
    Some(branch.to_owned())
}

/// The status that a request names. `detail` is what is reported of a text that is none.
pub fn requested_status(text: &str, detail: String) -> (r: Result<
    ConversationStatus,
    AppCommandError,
>)
    ensures
        match r {
            Ok(status) => text@ == status.name(),
            Err(e) => (forall|status: ConversationStatus| #[trigger] status.name() != text@) && e@
                == ErrorView::plain(
                AppErrorCode::InvalidInput,
                "Invalid conversation status"@,
            ).with_detail(detail@),
        },
{
    match ConversationStatus::parse(text) {
        Some(status) => Ok(status),
        None => Err(
            AppCommandError::invalid_input("Invalid conversation status".to_owned()).with_detail(
                detail,
            ),
        ),
    }
}

/// The error for a folder that is not there.
pub fn folder_not_found(folder_id: i32) -> (r: AppCommandError)
    ensures
        r@ == ErrorView::plain(AppErrorCode::NotFound, "Folder not found"@).with_detail(
            "folder_id="@ + crate::number::signed_decimal(folder_id as int),
        ),
{
    let mut detail: String = "folder_id=".to_owned();
    detail.append(crate::number::signed_text(folder_id).as_str());
    AppCommandError::not_found("Folder not found".to_owned()).with_detail(detail)
}

/// A task on conversations that is handed to another thread.
#[derive(Clone, Copy, PartialEq, Eq, Structural, Debug)]
pub enum ConversationTask {
    List,
    Load,
    ListFolders,
    Stats,
    Sidebar,
    ReadTurns,
}

impl ConversationTask {
    /// What is reported where the task breaks off.
    pub open spec fn message(self) -> Seq<char> {
        match self {
            ConversationTask::List => "Failed to list conversations"@,
            ConversationTask::Load => "Failed to load conversation"@,
            ConversationTask::ListFolders => "Failed to list folders"@,
            ConversationTask::Stats => "Failed to compute conversation stats"@,
            ConversationTask::Sidebar => "Failed to build sidebar data"@,
            ConversationTask::ReadTurns => "Failed to read conversation turns from session file"@,
        }
    }
}

/// The error for a task that broke off for the reason `detail`.
pub fn task_failed(task: ConversationTask, detail: String) -> (r: AppCommandError)
    ensures
        r@ == ErrorView::plain(AppErrorCode::TaskExecutionFailed, task.message()).with_detail(
            detail@,
        ),
{
    let message: &str = match task {
        ConversationTask::List => "Failed to list conversations",
        ConversationTask::Load => "Failed to load conversation",
        ConversationTask::ListFolders => "Failed to list folders",
        ConversationTask::Stats => "Failed to compute conversation stats",
        ConversationTask::Sidebar => "Failed to build sidebar data",
        ConversationTask::ReadTurns => "Failed to read conversation turns from session file",
    };
    AppCommandError::new(AppErrorCode::TaskExecutionFailed, message.to_owned()).with_detail(detail)
}

/// Every conversation that an agent listed is looked at, in the order in which the agents
/// and each agent's conversations come; an agent whose listing failed adds none.
pub proof fn law_listings_are_put_together(
    listings: Seq<Option<Vec<ListedConversation>>>,
    more: Vec<ListedConversation>,
)
    ensures
        all_listed(Seq::empty()).len() == 0,
        all_listed(listings.push(Some(more))) == all_listed(listings) + more@,
        all_listed(listings.push(None)) == all_listed(listings),
{
    assert(listings.push(Some(more)).drop_last() =~= listings);
    assert(listings.push(None).drop_last() =~= listings);
}

/// Of the conversations with one agent and one id the first is kept, and one that has
/// another agent or another id than all before it is kept whatever else they share.
pub proof fn law_first_of_a_conversation_is_kept(
    list: Seq<ListedConversation>,
    l: ListedConversation,
)
    ensures
        first_listed(Seq::empty()).len() == 0,
        (forall|k: int|
            0 <= k < list.len() ==> (#[trigger] list[k]).summary.agent_type != l.summary.agent_type
                || list[k].summary.id@ != l.summary.id@) ==> first_listed(list.push(l))
            == first_listed(list).push(l),
        (exists|k: int|
            0 <= k < list.len() && (#[trigger] list[k]).summary.agent_type == l.summary.agent_type
                && list[k].summary.id@ == l.summary.id@) ==> first_listed(list.push(l))
            == first_listed(list),
{
    assert(list.push(l).drop_last() =~= list);
    let before = summaries(list);
    if exists|k: int|
        0 <= k < list.len() && (#[trigger] list[k]).summary.agent_type == l.summary.agent_type
            && list[k].summary.id@ == l.summary.id@ {
        let k = choose|k: int|
            0 <= k < list.len() && (#[trigger] list[k]).summary.agent_type == l.summary.agent_type
                && list[k].summary.id@ == l.summary.id@;
        assert(same_conversation(before[k], l.summary));
    }
    if occurs_in(l.summary, before) {
        let k = choose|k: int|
            0 <= k < before.len() && same_conversation(#[trigger] before[k], l.summary);
        assert(before[k] == list[k].summary);
    }
}

proof fn lemma_first_is_kept(list: Seq<ListedConversation>, at: int)
    requires
        0 <= at < list.len(),
        forall|k: int|
            0 <= k < at ==> (#[trigger] list[k]).summary.agent_type != list[at].summary.agent_type
                || list[k].summary.id@ != list[at].summary.id@,
    ensures
        first_listed(list).contains(list[at]),
    decreases list.len(),
{
    let before = list.drop_last();
    law_first_of_a_conversation_is_kept(before, list.last());
    assert(before.push(list.last()) =~= list);
    if at == list.len() - 1 {
        assert forall|k: int| 0 <= k < before.len() implies (
        #[trigger] before[k]).summary.agent_type != list[at].summary.agent_type
            || before[k].summary.id@ != list[at].summary.id@ by {
            assert(before[k] == list[k]);
        }
        assert(first_listed(list)[first_listed(before).len() as int] == list[at]);
    } else {
        assert forall|k: int| 0 <= k < at implies (#[trigger] before[k]).summary.agent_type
            != before[at].summary.agent_type || before[k].summary.id@ != before[at].summary.id@ by {
            assert(before[k] == list[k]);
        }
        lemma_first_is_kept(before, at);
        let i = choose|i: int|
            0 <= i < first_listed(before).len() && first_listed(before)[i] == before[at];
        assert(first_listed(list)[i] == list[at]);
    }
}

/// A search looks at the title, the folder's name, the folder's path, the branch and the
/// model, each on its own: where one of them holds the query, in whatever case, the
/// conversation stands in the answer, if it is the first listed with its agent and id and
/// lies in the folder asked for.
pub proof fn law_search_finds_by_each_field(
    listings: Seq<Option<Vec<ListedConversation>>>,
    query: Seq<char>,
    by_folder: bool,
    sort_by: Option<Seq<char>>,
    at: int,
)
    requires
        0 <= at < all_listed(listings).len(),
        forall|k: int|
            0 <= k < at ==> (#[trigger] all_listed(listings)[k]).summary.agent_type
                != all_listed(listings)[at].summary.agent_type
                || all_listed(listings)[k].summary.id@ != all_listed(listings)[at].summary.id@,
        by_folder ==> all_listed(listings)[at].in_folder,
        ({
            let c = all_listed(listings)[at].summary;
            let sought = lowercase(query);
            ||| (c.title matches Some(s) && contains_text(lowercase(s@), sought))
            ||| (c.folder_name matches Some(s) && contains_text(lowercase(s@), sought))
            ||| (c.folder_path matches Some(s) && contains_text(lowercase(s@), sought))
            ||| (c.git_branch matches Some(s) && contains_text(lowercase(s@), sought))
            ||| (c.model matches Some(s) && contains_text(lowercase(s@), sought))
        }),
    ensures
        listed(listings, Some(query), by_folder, sort_by).contains(
            all_listed(listings)[at].summary,
        ),
{
    let l = all_listed(listings)[at];
    lemma_first_is_kept(all_listed(listings), at);
    assert(wanted(l, Some(query), by_folder));
    law_answer_is_what_was_asked_for(listings, Some(query), by_folder, sort_by, l.summary);
}

/// A search finds nothing by anything else: what stands in the answer holds the query, in
/// whatever case, in one of the five fields, and lies in the folder asked for.
pub proof fn law_search_finds_nothing_else(
    listings: Seq<Option<Vec<ListedConversation>>>,
    query: Seq<char>,
    by_folder: bool,
    sort_by: Option<Seq<char>>,
    c: ConversationSummary,
)
    requires
        listed(listings, Some(query), by_folder, sort_by).contains(c),
    ensures
        ({
            let sought = lowercase(query);
            ||| (c.title matches Some(s) && contains_text(lowercase(s@), sought))
            ||| (c.folder_name matches Some(s) && contains_text(lowercase(s@), sought))
            ||| (c.folder_path matches Some(s) && contains_text(lowercase(s@), sought))
            ||| (c.git_branch matches Some(s) && contains_text(lowercase(s@), sought))
            ||| (c.model matches Some(s) && contains_text(lowercase(s@), sought))
        }),
        exists|k: int|
            0 <= k < all_listed(listings).len() && (#[trigger] all_listed(listings)[k]).summary
                == c && (by_folder ==> all_listed(listings)[k].in_folder),
{
    law_answer_is_what_was_asked_for(listings, Some(query), by_folder, sort_by, c);
    let search = Some(query);
    let l = choose|l: ListedConversation|
        #![trigger wanted(l, search, by_folder)]
        first_listed(all_listed(listings)).contains(l) && l.summary == c && wanted(
            l,
            search,
            by_folder,
        );
    lemma_first_listed_is_listed(all_listed(listings));
    let all = all_listed(listings);
    let i = choose|i: int| 0 <= i < first_listed(all).len() && first_listed(all)[i] == l;
    assert(all.contains(first_listed(all)[i]));
    let k = choose|k: int| 0 <= k < all.len() && all[k] == l;
    assert(all[k].summary == c);
}

/// Without a search, each first listed conversation stands in the answer, and with a
/// folder asked for those of that folder and no others.
pub proof fn law_everything_is_listed_without_a_search(
    listings: Seq<Option<Vec<ListedConversation>>>,
    by_folder: bool,
    sort_by: Option<Seq<char>>,
    at: int,
)
    requires
        0 <= at < all_listed(listings).len(),
        forall|k: int|
            0 <= k < at ==> (#[trigger] all_listed(listings)[k]).summary.agent_type
                != all_listed(listings)[at].summary.agent_type
                || all_listed(listings)[k].summary.id@ != all_listed(listings)[at].summary.id@,
    ensures
        !by_folder || all_listed(listings)[at].in_folder ==> listed(
            listings,
            None,
            by_folder,
            sort_by,
        ).contains(all_listed(listings)[at].summary),
        forall|i: int|
            0 <= i < listed(listings, None, true, sort_by).len() ==> exists|k: int|
                0 <= k < all_listed(listings).len() && (#[trigger] all_listed(
                    listings,
                )[k]).summary == #[trigger] listed(listings, None, true, sort_by)[i]
                    && all_listed(listings)[k].in_folder,
{
    let l = all_listed(listings)[at];
    lemma_first_is_kept(all_listed(listings), at);
    if !by_folder || l.in_folder {
        assert(wanted(l, None, by_folder));
        law_answer_is_what_was_asked_for(listings, None, by_folder, sort_by, l.summary);
    }
    let answer = listed(listings, None, true, sort_by);
    let all = all_listed(listings);
    assert forall|i: int| 0 <= i < answer.len() implies exists|k: int|
        0 <= k < all.len() && (#[trigger] all[k]).summary == #[trigger] answer[i]
            && all[k].in_folder by {
        let c = answer[i];
        assert(answer.contains(c));
        law_answer_is_what_was_asked_for(listings, None, true, sort_by, c);
        let l = choose|l: ListedConversation|
            #![trigger wanted(l, None, true)]
            first_listed(all).contains(l) && l.summary == c && wanted(l, None, true);
        lemma_first_listed_is_listed(all);
        let j = choose|j: int| 0 <= j < first_listed(all).len() && first_listed(all)[j] == l;
        assert(all.contains(first_listed(all)[j]));
        let k = choose|k: int| 0 <= k < all.len() && all[k] == l;
        assert(all[k].summary == answer[i]);
    }
}

/// The answer goes by the name of the order: `oldest` by the beginning, `messages` by the
/// number of messages, the most first, and any other name, or none, by the beginning, the
/// latest first.
pub proof fn law_answer_goes_by_the_name_of_the_order(
    listings: Seq<Option<Vec<ListedConversation>>>,
    search: Option<Seq<char>>,
    by_folder: bool,
    name: Seq<char>,
    i: int,
    j: int,
)
    requires
        0 <= i <= j,
    ensures
        j < listed(listings, search, by_folder, Some("oldest"@)).len() ==> listed(
            listings,
            search,
            by_folder,
            Some("oldest"@),
        )[i].started_at.before_or_at(
            listed(listings, search, by_folder, Some("oldest"@))[j].started_at,
        ),
        j < listed(listings, search, by_folder, Some("messages"@)).len() ==> listed(
            listings,
            search,
            by_folder,
            Some("messages"@),
        )[i].message_count >= listed(
            listings,
            search,
            by_folder,
            Some("messages"@),
        )[j].message_count,
        name != "oldest"@ && name != "messages"@ && j < listed(
            listings,
            search,
            by_folder,
            Some(name),
        ).len() ==> listed(listings, search, by_folder, Some(name))[j].started_at.before_or_at(
            listed(listings, search, by_folder, Some(name))[i].started_at,
        ),
        j < listed(listings, search, by_folder, None).len() ==> listed(
            listings,
            search,
            by_folder,
            None,
        )[j].started_at.before_or_at(listed(listings, search, by_folder, None)[i].started_at),
{
    reveal_strlit("oldest");
    reveal_strlit("messages");
    assert("oldest"@.len() != "messages"@.len());
    if j < listed(listings, search, by_folder, Some("oldest"@)).len() {
        law_answer_is_sorted(listings, search, by_folder, Some("oldest"@), i, j);
    }
    if j < listed(listings, search, by_folder, Some("messages"@)).len() {
        law_answer_is_sorted(listings, search, by_folder, Some("messages"@), i, j);
    }
    if name != "oldest"@ && name != "messages"@ && j < listed(
        listings,
        search,
        by_folder,
        Some(name),
    ).len() {
        law_answer_is_sorted(listings, search, by_folder, Some(name), i, j);
    }
    if j < listed(listings, search, by_folder, None).len() {
        law_answer_is_sorted(listings, search, by_folder, None, i, j);
    }
}

/// Conversations that the order does not tell apart stand as they were listed: those with
/// one key are, in the answer, what they are among those selected, and one more listed
/// conversation is selected behind the others.
pub proof fn law_ties_stand_as_listed(
    listings: Seq<Option<Vec<ListedConversation>>>,
    search: Option<Seq<char>>,
    by_folder: bool,
    sort_by: Option<Seq<char>>,
    k: int,
    list: Seq<ListedConversation>,
    l: ListedConversation,
)
    ensures
        ({
            let key = conversation_key(sort_order(sort_by));
            crate::sorting::with_key(listed(listings, search, by_folder, sort_by), key, k)
                == crate::sorting::with_key(
                selected(first_listed(all_listed(listings)), search, by_folder),
                key,
                k,
            )
        }),
        selected(list.push(l), search, by_folder) == selected(list, search, by_folder) || selected(
            list.push(l),
            search,
            by_folder,
        ) == selected(list, search, by_folder).push(l.summary),
        search is None && !by_folder ==> selected(list.push(l), search, by_folder) == selected(
            list,
            search,
            by_folder,
        ).push(l.summary),
{
    crate::sorting::law_sort_is_stable(
        selected(first_listed(all_listed(listings)), search, by_folder),
        conversation_key(sort_order(sort_by)),
        k,
    );
    assert(list.push(l).drop_last() =~= list);
}

/// Without a filter each of the six agents is asked, once; with one, that agent alone.
pub proof fn law_every_agent_is_asked(agent: AgentType)
    ensures
        agents_of(Some(agent)) == seq![agent],
        agents_of(None).contains(agent),
        agents_of(None).no_duplicates(),
        agents_of(None).len() == 6,
        agents_of(None)[0] == AgentType::ClaudeCode,
        agents_of(None)[1] == AgentType::Codex,
        agents_of(None)[2] == AgentType::OpenCode,
        agents_of(None)[3] == AgentType::Gemini,
        agents_of(None)[4] == AgentType::OpenClaw,
        agents_of(None)[5] == AgentType::Cline,
{
    let all = agents_of(None);
    assert(all[0] == AgentType::ClaudeCode && all[1] == AgentType::Codex && all[2]
        == AgentType::OpenCode && all[3] == AgentType::Gemini && all[4] == AgentType::OpenClaw
        && all[5] == AgentType::Cline);
}

/// One more conversation counts towards the folder with its path, or towards `unknown`
/// where it has none: that folder's count rises by one, its agent is added unless it is
/// there, and nothing else changes. A folder that is not there yet is made, with the name
/// that the conversation gives.
pub proof fn law_conversation_counts_towards_its_folder(
    list: Seq<ConversationSummary>,
    c: ConversationSummary,
    at: int,
)
    ensures
        folders_of(Seq::empty()).len() == 0,
        ({
            let path = if c.folder_path is Some {
                c.folder_path->0@
            } else {
                "unknown"@
            };
            let name = if c.folder_name is Some {
                c.folder_name->0@
            } else {
                "unknown"@
            };
            let before = folders_of(list);
            let after = folders_of(list.push(c));
            &&& (forall|k: int| 0 <= k < before.len() ==> (#[trigger] before[k]).path != path)
                ==> after.len() == before.len() + 1 && after.drop_last() == before
                && after.last().path == path && after.last().name == name && after.last().agents
                == seq![c.agent_type] && after.last().count == 1
            &&& 0 <= at < before.len() && before[at].path == path ==> {
                &&& after.len() == before.len()
                &&& forall|k: int|
                    0 <= k < after.len() && k != at ==> #[trigger] after[k] == before[k]
                &&& after[at].path == path
                &&& after[at].name == before[at].name
                &&& after[at].count == before[at].count + 1
                &&& before[at].agents.contains(c.agent_type) ==> after[at].agents
                    == before[at].agents
                &&& !before[at].agents.contains(c.agent_type) ==> after[at].agents
                    == before[at].agents.push(c.agent_type)
            }
        }),
{
    let before = folders_of(list);
    let path = or_unknown(c.folder_path);
    assert(list.push(c).drop_last() =~= list);
    lemma_folder_at(before, path);
    law_folders_count_conversations(list);
    if 0 <= at < before.len() && before[at].path == path {
        let i = folder_at(before, path)->0;
        if i < at {
            assert(before[i].path != before[at].path);
        } else if at < i {
            assert(before[at].path != before[i].path);
        }
    } else if forall|k: int| 0 <= k < before.len() ==> (#[trigger] before[k]).path != path {
        assert(folders_of(list.push(c)).drop_last() =~= before);
    }
}

/// The folders are reported by their counts, the largest first; none is lost and none is
/// added.
pub proof fn law_folders_are_sorted_by_count(
    list: Seq<ConversationSummary>,
    i: int,
    j: int,
    f: FolderView,
)
    ensures
        ({
            let answer = stable_sorted(folders_of(list), folder_key());
            &&& answer.len() == folders_of(list).len()
            &&& 0 <= i <= j < answer.len() ==> answer[i].count >= answer[j].count
            &&& answer.contains(f) == folders_of(list).contains(f)
        }),
{
    let key = folder_key();
    crate::sorting::law_sort_is_in_order(folders_of(list), key);
    lemma_sorted_comes_from(folders_of(list), key, f);
    let answer = stable_sorted(folders_of(list), key);
    if 0 <= i <= j < answer.len() {
        assert(key(answer[i]) <= key(answer[j]));
    }
}

/// One more conversation adds its messages to the total, one to the count of its agent and
/// none to any other's, and its agent to the agents unless it is there.
pub proof fn law_conversation_counts_in_the_stats(
    list: Seq<ConversationSummary>,
    c: ConversationSummary,
    agent: AgentType,
    path: Seq<char>,
)
    ensures
        messages_in(Seq::empty()) == 0,
        messages_in(list.push(c)) == messages_in(list) + c.message_count,
        count_with_agent(Seq::empty(), agent) == 0,
        count_with_agent(list.push(c), agent) == count_with_agent(list, agent) + (if agent
            == c.agent_type {
            1int
        } else {
            0
        }),
        count_in_folder(Seq::empty(), path) == 0,
        count_in_folder(list.push(c), path) == count_in_folder(list, path) + (if path == (
        if c.folder_path is Some {
            c.folder_path->0@
        } else {
            "unknown"@
        }) {
            1int
        } else {
            0
        }),
        agents_in(Seq::empty()).len() == 0,
        agents_in(list).contains(c.agent_type) ==> agents_in(list.push(c)) == agents_in(list),
        !agents_in(list).contains(c.agent_type) ==> agents_in(list.push(c)) == agents_in(
            list,
        ).push(c.agent_type),
{
    assert(list.push(c).drop_last() =~= list);
}

proof fn lemma_agent_count_bound(list: Seq<ConversationSummary>, agent: AgentType)
    ensures
        0 <= count_with_agent(list, agent) <= list.len(),
    decreases list.len(),
{
    if list.len() > 0 {
        lemma_agent_count_bound(list.drop_last(), agent);
    }
}

/// The stats name each agent that has a conversation, with the number of its
/// conversations, the largest number first.
pub proof fn law_stats_count_each_agent(list: Seq<ConversationSummary>, at: int, i: int, j: int)
    requires
        list.len() <= u32::MAX,
    ensures
        0 <= at < list.len() ==> exists|k: int|
            0 <= k < agent_counts(list).len() && (#[trigger] agent_counts(list)[k]).agent_type
                == list[at].agent_type && agent_counts(list)[k].conversation_count
                == count_with_agent(list, list[at].agent_type),
        0 <= i <= j < agent_counts(list).len() ==> agent_counts(list)[i].conversation_count
            >= agent_counts(list)[j].conversation_count,
        agent_counts(list).len() == agents_in(list).len(),
{
    let counts = counts_of(list, agents_in(list));
    crate::sorting::law_sort_is_in_order(counts, count_key());
    law_agents_are_listed_once(list);
    if 0 <= at < list.len() {
        let agent = list[at].agent_type;
        lemma_agent_count_bound(list, agent);
        assert(agents_in(list).contains(agent));
        let k = choose|k: int| 0 <= k < agents_in(list).len() && agents_in(list)[k] == agent;
        let entry = counts[k];
        assert(counts.contains(entry));
        lemma_sorted_comes_from(counts, count_key(), entry);
        let m = choose|m: int| 0 <= m < agent_counts(list).len() && agent_counts(list)[m] == entry;
        assert(agent_counts(list)[m].agent_type == agent);
    }
    if 0 <= i <= j < agent_counts(list).len() {
        let key = count_key();
        assert(key(agent_counts(list)[i]) <= key(agent_counts(list)[j]));
    }
}

/// What a failed read is reported as: each failure has its own code and hands on the
/// reason, and a failed file access stays what it was.
pub proof fn law_failed_reads_are_told_apart(text: String, error: AppCommandError)
    ensures
        parse_failure(ParseError::ConversationNotFound(text)).code == AppErrorCode::NotFound,
        parse_failure(ParseError::ConversationNotFound(text)).message == "Conversation not found"@,
        parse_failure(ParseError::ConversationNotFound(text)).detail == Some(text@),
        parse_failure(ParseError::InvalidData(text)).code == AppErrorCode::InvalidInput,
        parse_failure(ParseError::InvalidData(text)).message == "Invalid conversation data"@,
        parse_failure(ParseError::InvalidData(text)).detail == Some(text@),
        parse_failure(ParseError::Json(text)).code == AppErrorCode::InvalidInput,
        parse_failure(ParseError::Json(text)).message == "Failed to parse conversation file"@,
        parse_failure(ParseError::Json(text)).detail == Some(text@),
        parse_failure(ParseError::Db(text)).code == AppErrorCode::DatabaseError,
        parse_failure(ParseError::Db(text)).message == "Database operation failed"@,
        parse_failure(ParseError::Db(text)).detail == Some(text@),
        parse_failure(ParseError::Io(error)) == error@,
{
}

/// A record that is gone is looked for under another id with the three agents that give
/// their sessions new ids, and reported empty with the other three; any other failure is
/// reported, and a record that was read is the answer.
pub proof fn law_missing_record_is_looked_for(
    agent: AgentType,
    id: String,
    text: String,
    error: AppCommandError,
)
    ensures
        after_record(agent, Ok(())) == LoadView::Finish,
        agent == AgentType::OpenClaw || agent == AgentType::Cline || agent == AgentType::Gemini
            ==> after_record(agent, Err(ParseError::ConversationNotFound(id)))
            == LoadView::ListCandidates,
        agent == AgentType::ClaudeCode || agent == AgentType::Codex || agent
            == AgentType::OpenCode ==> after_record(
            agent,
            Err(ParseError::ConversationNotFound(id)),
        ) == LoadView::FinishEmpty,
        after_record(agent, Err(ParseError::InvalidData(text))) == LoadView::Fail(
            parse_failure(ParseError::InvalidData(text)),
        ),
        after_record(agent, Err(ParseError::Json(text))) == LoadView::Fail(
            parse_failure(ParseError::Json(text)),
        ),
        after_record(agent, Err(ParseError::Db(text))) == LoadView::Fail(
            parse_failure(ParseError::Db(text)),
        ),
        after_record(agent, Err(ParseError::Io(error))) == LoadView::Fail(error@),
{
}

proof fn lemma_closest_is_first(list: Seq<Candidate>, created_at: Stamp, k: int)
    requires
        closest(list, created_at) matches Some(i) && 0 <= k < i,
        list[k].in_folder,
    ensures
        list[k].started_at.seconds_apart(created_at)
            > list[closest(list, created_at)->0].started_at.seconds_apart(created_at),
    decreases list.len(),
{
    let before = list.drop_last();
    let i = closest(list, created_at)->0;
    lemma_closest(before, created_at);
    lemma_closest(list, created_at);
    if i < list.len() - 1 {
        assert(before[i] == list[i] && before[k] == list[k]);
        lemma_closest_is_first(before, created_at, k);
    } else {
        assert(before[k] == list[k]);
        let j = closest(before, created_at)->0;
        assert(before[j] == list[j]);
    }
}

/// A candidate in the folder that began less than five minutes apart is matched, if there
/// is one; of several that are equally close, the first.
pub proof fn law_close_candidate_is_matched(list: Seq<Candidate>, created_at: Stamp, at: int)
    requires
        0 <= at < list.len(),
        list[at].in_folder,
    ensures
        list[at].started_at.seconds_apart(created_at) < 300 ==> matched(list, created_at) is Some,
        matched(list, created_at) matches Some(i) ==> at < i
            ==> list[at].started_at.seconds_apart(created_at)
            > list[i].started_at.seconds_apart(created_at),
{
    lemma_closest(list, created_at);
    if matched(list, created_at) is Some && at < matched(list, created_at)->0 {
        lemma_closest_is_first(list, created_at, at);
    }
}

/// The branch is what git printed, without whitespace around it; there is none where git
/// failed, printed nothing but whitespace, or printed `HEAD`.
pub proof fn law_branch_is_what_was_printed(
    stdout: Seq<u8>,
    front: Seq<char>,
    name: Seq<char>,
    back: Seq<char>,
)
    requires
        lossy_utf8(stdout) == front + name + back,
        forall|i: int| 0 <= i < front.len() ==> crate::text::is_whitespace(#[trigger] front[i]),
        forall|i: int| 0 <= i < back.len() ==> crate::text::is_whitespace(#[trigger] back[i]),
        name.len() > 0 ==> !crate::text::is_whitespace(name[0]) && !crate::text::is_whitespace(
            name[name.len() - 1],
        ),
    ensures
        branch_in(false, stdout) is None,
        name.len() == 0 || name == "HEAD"@ ==> branch_in(true, stdout) is None,
        name.len() > 0 && name != "HEAD"@ ==> branch_in(true, stdout) == Some(name),
{
    crate::text::law_trim_takes_off_the_set_alone(
        front,
        name,
        back,
        crate::text::TrimSet::Whitespace,
    );
}

/// What is reported where a task on conversations did not end.
pub proof fn law_task_messages()
    ensures
        ConversationTask::List.message() == "Failed to list conversations"@,
        ConversationTask::Load.message() == "Failed to load conversation"@,
        ConversationTask::ListFolders.message() == "Failed to list folders"@,
        ConversationTask::Stats.message() == "Failed to compute conversation stats"@,
        ConversationTask::Sidebar.message() == "Failed to build sidebar data"@,
        ConversationTask::ReadTurns.message()
            == "Failed to read conversation turns from session file"@,
{
}


} // verus!
