//! Records of an agent's session transcript: a file of JSON documents, one per line.
use vstd::prelude::*;

use crate::bytes::{slice_of, text_of_utf8, utf8_text};
use crate::clock::{parse_rfc3339, stamp_of_text, Stamp};
use crate::json::{json_of_text, opt_str, parse_json, Json, JsonView};
use crate::text::{
    chars_of, find_from, occurs_at, opt_view, same_text, starts_with, trim, trimmed,
};

verus! {

/// How the agent begins the summary that continues a conversation after compaction.
pub const CONTEXT_CONTINUATION_PREFIX: &'static str =
    "This session is being continued from a previous conversation";

// ---------------------------------------------------------------------------
// Tags inside a text
// ---------------------------------------------------------------------------

/// The first position at or after `from` at which `needle` stands in `hay`.
pub open spec fn first_at(hay: Seq<char>, needle: Seq<char>, from: int) -> Option<int>
    decreases hay.len() - from + 1,
{
    if from < 0 || from + needle.len() > hay.len() {
        None
    } else if occurs_at(hay, needle, from) {
        Some(from)
    } else {
        first_at(hay, needle, from + 1)
    }
}

proof fn lemma_first_at_some(hay: Seq<char>, needle: Seq<char>, from: int, at: int)
    requires
        0 <= from <= at,
        occurs_at(hay, needle, at),
        forall|k: int| from <= k < at ==> !occurs_at(hay, needle, k),
    ensures
        first_at(hay, needle, from) == Some(at),
    decreases at - from,
{
    if from < at {
        lemma_first_at_some(hay, needle, from + 1, at);
    }
}

proof fn lemma_first_at_none(hay: Seq<char>, needle: Seq<char>, from: int)
    requires
        0 <= from,
        forall|k: int| from <= k ==> !occurs_at(hay, needle, k),
    ensures
        first_at(hay, needle, from) is None,
    decreases hay.len() - from + 1,
{
    if from + needle.len() <= hay.len() {
        lemma_first_at_none(hay, needle, from + 1);
    }
}

/// The trimmed text between the first `open` and the next `close` after it; `None`
/// where one of them is missing or nothing but whitespace stands between them.
pub open spec fn captured(text: Seq<char>, open: Seq<char>, close: Seq<char>) -> Option<Seq<char>> {
    match first_at(text, open, 0) {
        Some(at) => match first_at(text, close, at + open.len()) {
            Some(end) => {
                let inner = trimmed(text.subrange(at + open.len(), end));
                if inner.len() == 0 {
                    None
                } else {
                    Some(inner)
                }
            },
            None => None,
        },
        None => None,
    }
}

/// The trimmed text between the first `open` and the next `close` after it.
pub fn capture_tag(text: &str, open: &str, close: &str) -> (r: Option<String>)
    ensures
        opt_view(r) == captured(text@, open@, close@),
{
    let chars: Vec<char> = chars_of(text);
    let o: Vec<char> = chars_of(open);
    let c: Vec<char> = chars_of(close);
    match find_from(chars.as_slice(), o.as_slice(), 0) {
        Some(at) => {
            proof {
                lemma_first_at_some(text@, open@, 0, at as int);
            }
            assert(at + open@.len() <= chars.len());
            let start: usize = at + o.len();
            match find_from(chars.as_slice(), c.as_slice(), start) {
                Some(end) => {
                    proof {
                        lemma_first_at_some(text@, close@, start as int, end as int);
                    }
                    let inner: &str = trim(text.substring_char(start, end));
                    if inner.is_empty() {
                        None
                    } else {
                        Some(inner.to_owned())
                    }
                },
                None => {
                    proof {
                        lemma_first_at_none(text@, close@, start as int);
                    }
                    None
                },
            }
        },
        None => {
            proof {
                lemma_first_at_none(text@, open@, 0);
            }
            None
        },
    }
}

/// The form in which a user typed the slash command whose tags `text` holds: the
/// command's name and, after a blank, its arguments if it has any.
pub open spec fn slash_display(text: Seq<char>) -> Option<Seq<char>> {
    match captured(text, "<command-name>"@, "</command-name>"@) {
        Some(name) => match captured(text, "<command-args>"@, "</command-args>"@) {
            Some(args) => Some(name + " "@ + args),
            None => Some(name),
        },
        None => None,
    }
}

/// The form in which a user typed the slash command whose tags `text` holds.
pub fn slash_command_display(text: &str) -> (r: Option<String>)
    ensures
        opt_view(r) == slash_display(text@),
{
    match capture_tag(text, "<command-name>", "</command-name>") {
        Some(name) => {
            let mut out: String = name;
            match capture_tag(text, "<command-args>", "</command-args>") {
                Some(args) => {
                    out.append(" ");
                    out.append(args.as_str());
                },
                None => {},
            }
            Some(out)
        },
        None => None,
    }
}

// ---------------------------------------------------------------------------
// Fields of a record
// ---------------------------------------------------------------------------

/// The record is a user record.
pub open spec fn is_user(record: JsonView) -> bool {
    record.text_member("type"@) == Some("user"@)
}

/// The content of the record's message.
pub open spec fn message_content(record: JsonView) -> Option<JsonView> {
    match record.member("message"@) {
        Some(message) => message.member("content"@),
        None => None,
    }
}

/// The block has the given type.
pub open spec fn block_is(block: JsonView, kind: Seq<char>) -> bool {
    block.text_member("type"@) == Some(kind)
}

/// The text of a text block.
pub open spec fn block_text(block: JsonView) -> Option<Seq<char>> {
    if block_is(block, "text"@) {
        block.text_member("text"@)
    } else {
        None
    }
}

/// The texts of the text blocks among `blocks`, in order.
pub open spec fn block_texts(blocks: Seq<JsonView>) -> Seq<Seq<char>> {
    blocks.filter_map(|block: JsonView| block_text(block))
}

/// `parts` with a line break between any two neighbours.
pub open spec fn joined_lines(parts: Seq<Seq<char>>) -> Seq<char>
    decreases parts.len(),
{
    if parts.len() == 0 {
        Seq::empty()
    } else if parts.len() == 1 {
        parts[0]
    } else {
        joined_lines(parts.drop_last()) + "\n"@ + parts.last()
    }
}

/// The text of a user record: its content where that is a text, otherwise its text
/// blocks joined by line breaks, if it has any.
pub open spec fn user_text(record: JsonView) -> Option<Seq<char>> {
    if !is_user(record) {
        None
    } else {
        match message_content(record) {
            None => None,
            Some(JsonView::Text(s)) => Some(s),
            Some(JsonView::Array(blocks)) => {
                let texts = block_texts(blocks);
                if texts.len() == 0 {
                    None
                } else {
                    Some(joined_lines(texts))
                }
            },
            Some(_) => None,
        }
    }
}

/// The record is marked as injected by the agent rather than typed.
pub open spec fn is_meta(record: JsonView) -> bool {
    record.member("isMeta"@) == Some(JsonView::Bool(true))
}

/// There is a block, and every one has the given type.
pub open spec fn only_blocks_of(blocks: Seq<JsonView>, kind: Seq<char>) -> bool {
    blocks.len() > 0 && forall|i: int| 0 <= i < blocks.len() ==> block_is(#[trigger] blocks[i], kind)
}

/// The text of a record that starts a new turn; `None` for a record that continues the
/// turn in progress. Records of tool results only, injected block lists and the
/// summary after a compaction continue; a slash command starts a turn under the form
/// in which it was typed.
pub open spec fn initiator_text(record: JsonView) -> Option<Seq<char>> {
    if !is_user(record) {
        None
    } else {
        match message_content(record) {
            None => None,
            Some(JsonView::Text(s)) => if CONTEXT_CONTINUATION_PREFIX@.is_prefix_of(s) {
                None
            } else if slash_display(s) is Some {
                slash_display(s)
            } else {
                Some(s)
            },
            Some(JsonView::Array(blocks)) => if only_blocks_of(blocks, "tool_result"@) || is_meta(
                record,
            ) {
                None
            } else {
                match user_text(record) {
                    Some(text) => if CONTEXT_CONTINUATION_PREFIX@.is_prefix_of(text) {
                        None
                    } else {
                        Some(text)
                    },
                    None => None,
                }
            },
            Some(_) => None,
        }
    }
}

/// Whether the value at hand is the text `expected`.
pub(crate) fn text_is(value: Option<&str>, expected: &str) -> (r: bool)
    ensures
        r == (opt_str(value) == Some(expected@)),
{
    match value {
        Some(s) => same_text(s, expected),
        None => false,
    }
}

pub(crate) fn content_of(record: &Json) -> (r: Option<&Json>)
    ensures
        crate::json::opt_json(r) == message_content(record@),
{
    match record.get("message") {
        Some(message) => message.get("content"),
        None => None,
    }
}

fn texts_joined(blocks: &Vec<Json>) -> (r: Option<String>)
    ensures
        opt_view(r) == ({
            let texts = block_texts(blocks@.map_values(|j: Json| j@));
            if texts.len() == 0 {
                None
            } else {
                Some(joined_lines(texts))
            }
        }),
{
    let ghost views = blocks@.map_values(|j: Json| j@);
    let ghost pick = |block: JsonView| block_text(block);
    let mut out = String::new();
    let mut any = false;
    let mut i: usize = 0;
    assert(views.take(0) =~= Seq::<JsonView>::empty());
    while i < blocks.len()
        invariant
            i <= blocks@.len(),
            views == blocks@.map_values(|j: Json| j@),
            pick == (|block: JsonView| block_text(block)),
            any == (views.take(i as int).filter_map(pick).len() > 0),
            out@ == joined_lines(views.take(i as int).filter_map(pick)),
        decreases blocks.len() - i,
    {
        let block: &Json = &blocks[i];
        let ghost before = views.take(i as int).filter_map(pick);
        let ghost after = views.take(i + 1).filter_map(pick);
        proof {
            views.lemma_filter_map_take_succ(pick, i as int);
            assert(views[i as int] == block@);
        }
        if text_is(block.get_str("type"), "text") {
            match block.get_str("text") {
                Some(text) => {
                    assert(after =~= before.push(text@));
                    assert(after.drop_last() =~= before);
                    if any {
                        out.append("\n");
                    }
                    out.append(text);
                    any = true;
                    assert(out@ =~= joined_lines(after));
                },
                None => {
                    assert(after =~= before);
                },
            }
        } else {
            assert(after =~= before);
        }
        i = i + 1;
    }
    assert(views.take(i as int) =~= views);
    if any {
        Some(out)
    } else {
        None
    }
}

/// The text of a user record.
pub fn user_record_text(record: &Json) -> (r: Option<String>)
    ensures
        opt_view(r) == user_text(record@),
{
    if !text_is(record.get_str("type"), "user") {
        return None;
    }
    match content_of(record) {
        None => None,
        Some(content) => match content.as_str() {
            Some(s) => Some(s.to_owned()),
            None => match content.as_array() {
                Some(blocks) => texts_joined(blocks),
                None => None,
            },
        },
    }
}

/// Whether the record is marked as injected by the agent.
pub fn is_meta_message(record: &Json) -> (r: bool)
    ensures
        r == is_meta(record@),
{
    match record.get("isMeta") {
        Some(Json::Bool(b)) => *b,
        _ => false,
    }
}

fn only_tool_results(blocks: &Vec<Json>) -> (r: bool)
    ensures
        r == only_blocks_of(blocks@.map_values(|j: Json| j@), "tool_result"@),
{
    let ghost views = blocks@.map_values(|j: Json| j@);
    if blocks.len() == 0 {
        return false;
    }
    let mut i: usize = 0;
    while i < blocks.len()
        invariant
            i <= blocks@.len(),
            views == blocks@.map_values(|j: Json| j@),
            forall|k: int| 0 <= k < i ==> block_is(#[trigger] views[k], "tool_result"@),
        decreases blocks.len() - i,
    {
        assert(views[i as int] == blocks@[i as int]@);
        if !text_is(blocks[i].get_str("type"), "tool_result") {
            assert(!block_is(views[i as int], "tool_result"@));
            return false;
        }
        i = i + 1;
    }
    true
}

/// The text of a record that starts a new turn; `None` for a record that continues the
/// turn in progress.
pub fn turn_initiator_text(record: &Json) -> (r: Option<String>)
    ensures
        opt_view(r) == initiator_text(record@),
{
    if !text_is(record.get_str("type"), "user") {
        return None;
    }
    match content_of(record) {
        None => None,
        Some(content) => match content.as_str() {
            Some(s) => {
                if starts_with(s, CONTEXT_CONTINUATION_PREFIX) {
                    return None;
                }
                match slash_command_display(s) {
                    Some(display) => Some(display),
                    None => Some(s.to_owned()),
                }
            },
            None => match content.as_array() {
                Some(blocks) => {
                    if only_tool_results(blocks) || is_meta_message(record) {
                        return None;
                    }
                    match user_record_text(record) {
                        Some(text) => {
                            if starts_with(text.as_str(), CONTEXT_CONTINUATION_PREFIX) {
                                None
                            } else {
                                Some(text)
                            }
                        },
                        None => None,
                    }
                },
                None => None,
            },
        },
    }
}

// ---------------------------------------------------------------------------
// Where a watch begins
// ---------------------------------------------------------------------------

/// The timestamp of a record that belongs to the conversation: one of the user or of
/// the assistant.
pub open spec fn conversation_time(record: JsonView) -> Option<Seq<char>> {
    if is_user(record) || record.text_member("type"@) == Some("assistant"@) {
        record.text_member("timestamp"@)
    } else {
        None
    }
}

/// The timestamp of a record that belongs to the conversation.
pub fn conversation_timestamp(record: &Json) -> (r: Option<&str>)
    ensures
        opt_str(r) == conversation_time(record@),
{
    let kind: Option<&str> = record.get_str("type");
    if text_is(kind, "user") || text_is(kind, "assistant") {
        record.get_str("timestamp")
    } else {
        None
    }
}

/// The record of a conversation dates from `epoch` or later.
pub open spec fn dates_from(record: JsonView, epoch: Stamp) -> bool {
    match conversation_time(record) {
        Some(time) => match stamp_of_text(time) {
            Some(stamp) => epoch.before_or_at(stamp),
            None => false,
        },
        None => false,
    }
}

/// The line is a record of the conversation that dates from `epoch` or later.
pub open spec fn line_dates_from(line: Seq<u8>, epoch: Stamp) -> bool {
    match utf8_text(line) {
        Some(text) => match json_of_text(text) {
            Some(record) => dates_from(record, epoch),
            None => false,
        },
        None => false,
    }
}

/// The position of the first line break at or after `from`.
pub open spec fn line_end(bytes: Seq<u8>, from: int) -> Option<int>
    decreases bytes.len() - from,
{
    if from < 0 || from >= bytes.len() {
        None
    } else if bytes[from] == 10 {
        Some(from)
    } else {
        line_end(bytes, from + 1)
    }
}

/// The start of the first complete line from `start` on that dates from `epoch` or
/// later; without one, the end of the last complete line.
pub open spec fn baseline_from(bytes: Seq<u8>, start: int, epoch: Stamp) -> int
    decreases bytes.len() - start,
    via baseline_from_ends
{
    match line_end(bytes, start) {
        None => start,
        Some(end) => if line_dates_from(bytes.subrange(start, end + 1), epoch) {
            start
        } else {
            baseline_from(bytes, end + 1, epoch)
        },
    }
}

#[via_fn]
proof fn baseline_from_ends(bytes: Seq<u8>, start: int, epoch: Stamp) {
    lemma_line_end(bytes, start);
}

proof fn lemma_line_end(bytes: Seq<u8>, from: int)
    ensures
        line_end(bytes, from) matches Some(end) ==> 0 <= from <= end < bytes.len() && bytes[end]
            == 10 && forall|k: int| from <= k < end ==> bytes[k] != 10,
        0 <= from && line_end(bytes, from) is None ==> forall|k: int|
            from <= k < bytes.len() ==> bytes[k] != 10,
    decreases bytes.len() - from,
{
    if 0 <= from < bytes.len() && bytes[from] != 10 {
        lemma_line_end(bytes, from + 1);
    }
}

fn find_line_end(bytes: &[u8], from: usize) -> (r: Option<usize>)
    requires
        from <= bytes@.len(),
    ensures
        match r {
            Some(end) => line_end(bytes@, from as int) == Some(end as int) && from <= end
                < bytes@.len() && end < usize::MAX,
            None => line_end(bytes@, from as int) is None,
        },
{
    let mut i: usize = from;
    while i < bytes.len()
        invariant
            from <= i <= bytes@.len(),
            line_end(bytes@, from as int) == line_end(bytes@, i as int),
        decreases bytes.len() - i,
    {
        if bytes[i] == 10 {
            return Some(i);
        }
        i = i + 1;
    }
    None
}

/// Whether a record of the conversation dates from `epoch` or later.
pub fn record_dates_from(record: &Json, epoch: Stamp) -> (r: bool)
    ensures
        r == dates_from(record@, epoch),
{
    match conversation_timestamp(record) {
        Some(time) => match parse_rfc3339(time) {
            Some(stamp) => epoch.is_before_or_at(stamp),
            None => false,
        },
        None => false,
    }
}

fn line_anchors(line: &[u8], epoch: Stamp) -> (r: bool)
    ensures
        r == line_dates_from(line@, epoch),
{
    match text_of_utf8(line) {
        Some(text) => match parse_json(text.as_str()) {
            Some(record) => record_dates_from(&record, epoch),
            None => false,
        },
        None => false,
    }
}

/// Where the part of a transcript begins that was written from `epoch` on: the first
/// complete line that is a record of the conversation and dates from then or later.
/// Without one it is the end of the last complete line, so that a record still being
/// written is not cut in two.
pub fn baseline_offset_since(bytes: &[u8], epoch: Stamp) -> (r: u64)
    ensures
        r == baseline_from(bytes@, 0, epoch),
        r <= bytes@.len(),
{
    let mut start: usize = 0;
    loop
        invariant
            start <= bytes@.len(),
            baseline_from(bytes@, 0, epoch) == baseline_from(bytes@, start as int, epoch),
        decreases bytes@.len() - start,
    {
        match find_line_end(bytes, start) {
            None => {
                return start as u64;
            },
            Some(end) => {
                let line: Vec<u8> = slice_of(bytes, start, end + 1);
                if line_anchors(line.as_slice(), epoch) {
                    return start as u64;
                }
                start = end + 1;
            },
        }
    }
}

/// A watch begins at the start of a line, and no line break follows unless a line that
/// dates from `epoch` or later begins there.
pub proof fn law_baseline_is_a_line_start(bytes: Seq<u8>, start: int, epoch: Stamp)
    requires
        0 <= start <= bytes.len(),
        start == 0 || bytes[start - 1] == 10,
    ensures
        start <= baseline_from(bytes, start, epoch) <= bytes.len(),
        baseline_from(bytes, start, epoch) == 0 || bytes[baseline_from(bytes, start, epoch) - 1]
            == 10,
        match line_end(bytes, baseline_from(bytes, start, epoch)) {
            Some(end) => line_dates_from(
                bytes.subrange(baseline_from(bytes, start, epoch), end + 1),
                epoch,
            ),
            None => true,
        },
    decreases bytes.len() - start,
{
    lemma_line_end(bytes, start);
    match line_end(bytes, start) {
        Some(end) => {
            if !line_dates_from(bytes.subrange(start, end + 1), epoch) {
                law_baseline_is_a_line_start(bytes, end + 1, epoch);
            }
        },
        None => {},
    }
}

/// The text begins with `<` and has no other.
pub open spec fn is_tagged(text: Seq<char>) -> bool {
    text.len() > 0 && text[0] == '<' && forall|i: int| 0 < i < text.len() ==> #[trigger] text[i]
        != '<'
}

/// The text has no `<`.
pub open spec fn is_untagged(text: Seq<char>) -> bool {
    forall|i: int| 0 <= i < text.len() ==> #[trigger] text[i] != '<'
}

/// A tag with untagged text behind it has no other `<`.
pub proof fn lemma_tagged(tag: Seq<char>, rest: Seq<char>)
    requires
        is_tagged(tag),
        is_untagged(rest),
    ensures
        is_tagged(tag + rest),
{
    let all = tag + rest;
    assert forall|i: int| 0 < i < all.len() implies #[trigger] all[i] != '<' by {
        if i < tag.len() {
            assert(all[i] == tag[i]);
        } else {
            assert(all[i] == rest[i - tag.len()]);
        }
    }
}

/// A tag does not stand in a piece of text that begins with another tag, from which it
/// differs at `j`, and has no further `<`.
pub proof fn lemma_tag_misses(
    before: Seq<char>,
    piece: Seq<char>,
    behind: Seq<char>,
    tag: Seq<char>,
    j: int,
)
    requires
        is_tagged(piece),
        is_tagged(tag),
        0 < j < tag.len(),
        j < piece.len(),
        piece[j] != tag[j],
    ensures
        forall|k: int|
            before.len() <= k < before.len() + piece.len() ==> !occurs_at(
                before + piece + behind,
                tag,
                k,
            ),
{
    let text = before + piece + behind;
    assert forall|k: int| before.len() <= k < before.len() + piece.len() implies !occurs_at(
        text,
        tag,
        k,
    ) by {
        if occurs_at(text, tag, k) {
            let found = text.subrange(k, k + tag.len());
            assert(found[0] == text[k] && found[j] == text[k + j]);
            assert(text[k] == piece[k - before.len()]);
            assert(text[before.len() + j] == piece[j]);
        }
    }
}

/// A tag does not stand in a piece of text without `<`.
pub proof fn lemma_tag_misses_plain(
    before: Seq<char>,
    piece: Seq<char>,
    behind: Seq<char>,
    tag: Seq<char>,
)
    requires
        is_untagged(piece),
        is_tagged(tag),
    ensures
        forall|k: int|
            before.len() <= k < before.len() + piece.len() ==> !occurs_at(
                before + piece + behind,
                tag,
                k,
            ),
{
    let text = before + piece + behind;
    assert forall|k: int| before.len() <= k < before.len() + piece.len() implies !occurs_at(
        text,
        tag,
        k,
    ) by {
        if occurs_at(text, tag, k) {
            assert(text.subrange(k, k + tag.len())[0] == text[k]);
            assert(text[k] == piece[k - before.len()]);
        }
    }
}

/// What is read of an element is what stands between its first opening tag and the next
/// closing tag, without whitespace around it; a blank element is as good as none.
pub proof fn law_element_is_read(
    before: Seq<char>,
    open: Seq<char>,
    inner: Seq<char>,
    close: Seq<char>,
    behind: Seq<char>,
)
    requires
        forall|k: int|
            0 <= k < before.len() ==> !occurs_at(before + open + inner + close + behind, open, k),
        forall|k: int|
            before.len() + open.len() <= k < before.len() + open.len() + inner.len() ==> !occurs_at(
                before + open + inner + close + behind,
                close,
                k,
            ),
    ensures
        trimmed(inner).len() > 0 ==> captured(before + open + inner + close + behind, open, close)
            == Some(trimmed(inner)),
        trimmed(inner).len() == 0 ==> captured(before + open + inner + close + behind, open, close)
            is None,
{
    let text = before + open + inner + close + behind;
    let at = before.len() as int;
    let start = at + open.len();
    let end = start + inner.len();
    assert(text.subrange(at, start) =~= open);
    assert(text.subrange(end, end + close.len()) =~= close);
    assert(text.subrange(start, end) =~= inner);
    lemma_first_at_some(text, open, 0, at);
    lemma_first_at_some(text, close, start, end);
}

/// There is nothing to read where a text has no opening tag, or no closing tag behind the
/// first opening one.
pub proof fn law_missing_element_is_not_read(
    text: Seq<char>,
    open: Seq<char>,
    close: Seq<char>,
    at: int,
)
    ensures
        (forall|k: int| 0 <= k ==> !occurs_at(text, open, k)) ==> captured(text, open, close)
            is None,
        occurs_at(text, open, at) && (forall|k: int| 0 <= k < at ==> !occurs_at(text, open, k)) && (
        forall|k: int| at + open.len() <= k ==> !occurs_at(text, close, k)) ==> captured(
            text,
            open,
            close,
        ) is None,
{
    if forall|k: int| 0 <= k ==> !occurs_at(text, open, k) {
        lemma_first_at_none(text, open, 0);
    }
    if occurs_at(text, open, at) && (forall|k: int| 0 <= k < at ==> !occurs_at(text, open, k)) && (
    forall|k: int| at + open.len() <= k ==> !occurs_at(text, close, k)) {
        lemma_first_at_some(text, open, 0, at);
        lemma_first_at_none(text, close, at + open.len());
    }
}

/// A slash command is shown by the name and the arguments that its text holds, with a
/// space between them, or by the name alone; a text without a name is none.
pub proof fn law_slash_command_is_shown(text: Seq<char>)
    ensures
        ({
            let name = captured(text, "<command-name>"@, "</command-name>"@);
            let args = captured(text, "<command-args>"@, "</command-args>"@);
            &&& name is None ==> slash_display(text) is None
            &&& name is Some && args is None ==> slash_display(text) == name
            &&& name is Some && args is Some ==> slash_display(text) == Some(
                name->0 + " "@ + args->0,
            )
        }),
{
}

/// Only a user's record has a user's text. It is the content itself where that is a text;
/// of a list of blocks it is the texts of the text blocks, in order, each on a line of its
/// own. There is none where there is no such block, or no content of either kind.
pub proof fn law_user_text(record: JsonView, message: JsonView, content: JsonView, s: Seq<char>)
    ensures
        record.text_member("type"@) != Some("user"@) ==> user_text(record) is None,
        record.member("message"@) is None ==> user_text(record) is None,
        record.text_member("type"@) == Some("user"@) && record.member("message"@) == Some(message)
            && message.member("content"@) == Some(JsonView::Text(s)) ==> user_text(record) == Some(
            s,
        ),
        record.member("message"@) == Some(message) && message.member("content"@) is None
            ==> user_text(record) is None,
        record.member("message"@) == Some(message) && message.member("content"@) == Some(content)
            && !(content is Text) && !(content is Array) ==> user_text(record) is None,
{
}

/// One more block behind those of a user's record adds its text, on a line of its own, if
/// it is a text block that has one, and nothing otherwise.
pub proof fn law_user_text_grows_with_its_blocks(
    shorter: JsonView,
    longer: JsonView,
    message: JsonView,
    longer_message: JsonView,
    blocks: Seq<JsonView>,
    block: JsonView,
    s: Seq<char>,
)
    requires
        shorter.text_member("type"@) == Some("user"@),
        shorter.member("message"@) == Some(message),
        message.member("content"@) == Some(JsonView::Array(blocks)),
        longer.text_member("type"@) == Some("user"@),
        longer.member("message"@) == Some(longer_message),
        longer_message.member("content"@) == Some(JsonView::Array(blocks.push(block))),
    ensures
        blocks.len() == 0 ==> user_text(shorter) is None,
        block.text_member("type"@) == Some("text"@) && block.text_member("text"@) == Some(s)
            ==> user_text(longer) == Some(
            match user_text(shorter) {
                Some(before) => before + "\n"@ + s,
                None => s,
            },
        ),
        block.text_member("type"@) != Some("text"@) || block.text_member("text"@) is None
            ==> user_text(longer) == user_text(shorter),
{
    let pick = |b: JsonView| block_text(b);
    let before = blocks.filter_map(pick);
    let after = blocks.push(block).filter_map(pick);
    assert(blocks.push(block).drop_last() =~= blocks);
    assert(block_texts(blocks) == before);
    assert(block_texts(blocks.push(block)) == after);
    if block.text_member("type"@) == Some("text"@) && block.text_member("text"@) == Some(s) {
        assert(after == before + seq![s]);
        assert(after.drop_last() =~= before);
        assert(after.last() == s);
        if before.len() == 0 {
            assert(after[0] == s);
        }
    }
}

/// A user's record with a text opens a turn, with that text or the command that it stands
/// for, whether it is marked as meta or not. The summary that begins a continued session
/// does not.
pub proof fn law_text_opens_a_turn(record: JsonView, message: JsonView, s: Seq<char>)
    requires
        record.text_member("type"@) == Some("user"@),
        record.member("message"@) == Some(message),
        message.member("content"@) == Some(JsonView::Text(s)),
    ensures
        "This session is being continued from a previous conversation"@.is_prefix_of(s)
            ==> initiator_text(record) is None,
        !"This session is being continued from a previous conversation"@.is_prefix_of(s)
            ==> initiator_text(record) == Some(
            match slash_display(s) {
                Some(shown) => shown,
                None => s,
            },
        ),
{
}

/// A user's record with blocks opens a turn with its text, unless it has none, holds
/// nothing but results of tools, is marked as meta, or begins a continued session.
pub proof fn law_blocks_open_a_turn(
    record: JsonView,
    message: JsonView,
    blocks: Seq<JsonView>,
    at: int,
)
    requires
        record.text_member("type"@) == Some("user"@),
        record.member("message"@) == Some(message),
        message.member("content"@) == Some(JsonView::Array(blocks)),
    ensures
        record.member("isMeta"@) == Some(JsonView::Bool(true)) ==> initiator_text(record) is None,
        (forall|i: int|
            0 <= i < blocks.len() ==> (#[trigger] blocks[i]).text_member("type"@) == Some(
                "tool_result"@,
            )) ==> initiator_text(record) is None,
        0 <= at < blocks.len() && blocks[at].text_member("type"@) != Some("tool_result"@)
            && record.member("isMeta"@) != Some(JsonView::Bool(true)) ==> initiator_text(record)
            == match user_text(record) {
            Some(text) => if "This session is being continued from a previous conversation"@.is_prefix_of(
                text,
            ) {
                None
            } else {
                Some(text)
            },
            None => None,
        },
{
    if forall|i: int|
        0 <= i < blocks.len() ==> (#[trigger] blocks[i]).text_member("type"@) == Some(
            "tool_result"@,
        ) {
        if blocks.len() == 0 {
            let pick = |b: JsonView| block_text(b);
            assert(blocks.filter_map(pick).len() == 0);
        }
    }
    if 0 <= at < blocks.len() && blocks[at].text_member("type"@) != Some("tool_result"@) {
        assert(!block_is(blocks[at], "tool_result"@));
    }
}

/// No record but a user's opens a turn, and none without content.
pub proof fn law_other_records_open_no_turn(record: JsonView)
    ensures
        record.text_member("type"@) != Some("user"@) ==> initiator_text(record) is None,
        record.member("message"@) is None ==> initiator_text(record) is None,
        record.member("message"@) matches Some(message) ==> message.member("content"@) is None
            ==> initiator_text(record) is None,
{
}

/// A record dates from an epoch if it is a user's or an assistant's and its timestamp is
/// the epoch or later. A line does if it is the text of such a record.
pub proof fn law_what_dates_from_an_epoch(
    line: Seq<u8>,
    text: Seq<char>,
    record: JsonView,
    time: Seq<char>,
    epoch: Stamp,
)
    requires
        utf8_text(line) == Some(text),
        json_of_text(text) == Some(record),
    ensures
        (record.text_member("type"@) == Some("user"@) || record.text_member("type"@) == Some(
            "assistant"@,
        )) && record.text_member("timestamp"@) == Some(time) ==> (line_dates_from(line, epoch)
            <==> (stamp_of_text(time) matches Some(stamp) && (epoch.secs < stamp.secs || (epoch.secs
            == stamp.secs && epoch.nanos <= stamp.nanos)))),
        record.text_member("type"@) != Some("user"@) && record.text_member("type"@) != Some(
            "assistant"@,
        ) ==> !line_dates_from(line, epoch),
        record.text_member("timestamp"@) is None ==> !line_dates_from(line, epoch),
{
}

/// A line that is no text, or no record, dates from no epoch.
pub proof fn law_broken_line_dates_from_nothing(line: Seq<u8>, epoch: Stamp)
    ensures
        utf8_text(line) is None ==> !line_dates_from(line, epoch),
        utf8_text(line) matches Some(text) ==> json_of_text(text) is None ==> !line_dates_from(
            line,
            epoch,
        ),
{
}

proof fn lemma_line_end_is(bytes: Seq<u8>, from: int, end: int)
    requires
        0 <= from <= end < bytes.len(),
        bytes[end] == 10,
        forall|k: int| from <= k < end ==> #[trigger] bytes[k] != 10,
    ensures
        line_end(bytes, from) == Some(end),
    decreases end - from,
{
    if from < end {
        assert(bytes[from] != 10);
        lemma_line_end_is(bytes, from + 1, end);
    }
}

/// The baseline is the first line that dates from the epoch: the complete line that begins
/// there does, and no complete line between the start and there does. Where the bytes
/// behind the baseline hold no complete line, none at all does.
pub proof fn law_baseline_is_the_first_of_its_epoch(
    bytes: Seq<u8>,
    start: int,
    epoch: Stamp,
    from: int,
    end: int,
)
    requires
        0 <= start <= from <= end < bytes.len(),
        start == 0 || bytes[start - 1] == 10,
        from == 0 || bytes[from - 1] == 10,
        bytes[end] == 10,
        forall|k: int| from <= k < end ==> #[trigger] bytes[k] != 10,
    ensures
        from < baseline_from(bytes, start, epoch) ==> !line_dates_from(
            bytes.subrange(from, end + 1),
            epoch,
        ),
        from == baseline_from(bytes, start, epoch) ==> line_dates_from(
            bytes.subrange(from, end + 1),
            epoch,
        ),
    decreases bytes.len() - start,
{
    lemma_line_end_is(bytes, from, end);
    lemma_line_end(bytes, start);
    if line_end(bytes, start) is Some {
        let first = line_end(bytes, start)->0;
        if from > start {
            if from <= first {
                assert(bytes[from - 1] != 10);
            }
            if !line_dates_from(bytes.subrange(start, first + 1), epoch) {
                law_baseline_is_the_first_of_its_epoch(bytes, first + 1, epoch, from, end);
            }
        } else if !line_dates_from(bytes.subrange(start, first + 1), epoch) {
            law_baseline_is_a_line_start(bytes, first + 1, epoch);
        }
    }
}


} // verus!
