//! The prompt ledger: which turns of a transcript the application itself sent.
use vstd::prelude::*;

use crate::text::{starts_with, trim, trimmed};

verus! {

/// How long a fingerprint is kept, in nanoseconds.
pub const LEDGER_TTL_NANOS: u64 = 600_000_000_000;

/// The largest number of fingerprints kept.
pub const LEDGER_CAP: usize = 32;

/// One block of a prompt.
#[derive(Clone, Debug)]
pub enum PromptInputBlock {
    Text { text: String },
    /// An image, a resource or any other block without plain text.
    Attachment,
}

/// The nanoseconds from `at` to `now` on the monotonic clock; none where `now` does
/// not lie after `at`.
pub open spec fn elapsed(now: u64, at: u64) -> int {
    if now >= at {
        now - at
    } else {
        0
    }
}

/// The nanoseconds from `at` to `now`.
pub fn elapsed_nanos(now: u64, at: u64) -> (r: u64)
    ensures
        r == elapsed(now, at),
{
    if now >= at {
        now - at
    } else {
        0
    }
}

/// A prompt that was sent and not yet seen in the transcript.
#[derive(Debug)]
pub struct LedgerEntry {
    fingerprint: String,
    recorded_at: u64,
}

/// The model of a [`LedgerEntry`].
pub struct Fingerprint {
    pub text: Seq<char>,
    pub recorded_at: u64,
}

impl View for LedgerEntry {
    type V = Fingerprint;

    closed spec fn view(&self) -> Fingerprint {
        Fingerprint { text: self.fingerprint@, recorded_at: self.recorded_at }
    }
}

/// The prompts that the application sent on a connection, oldest first.
#[derive(Debug)]
pub struct PromptLedger {
    entries: Vec<LedgerEntry>,
}

impl View for PromptLedger {
    type V = Seq<Fingerprint>;

    closed spec fn view(&self) -> Seq<Fingerprint> {
        self.entries@.map_values(|e: LedgerEntry| e@)
    }
}

/// The fingerprint of a block: its trimmed text, if it has any.
pub open spec fn block_fingerprint(block: PromptInputBlock) -> Option<Seq<char>> {
    match block {
        PromptInputBlock::Text { text } => if trimmed(text@).len() > 0 {
            Some(trimmed(text@))
        } else {
            None
        },
        PromptInputBlock::Attachment => None,
    }
}

/// The fingerprint of a prompt: that of its first block that has one.
pub open spec fn prompt_fingerprint(blocks: Seq<PromptInputBlock>) -> Option<Seq<char>>
    decreases blocks.len(),
{
    if blocks.len() == 0 {
        None
    } else if block_fingerprint(blocks.first()) is Some {
        block_fingerprint(blocks.first())
    } else {
        prompt_fingerprint(blocks.drop_first())
    }
}

/// The newest `LEDGER_CAP` of `entries`.
pub open spec fn newest(entries: Seq<Fingerprint>) -> Seq<Fingerprint> {
    if entries.len() > LEDGER_CAP {
        entries.skip(entries.len() - LEDGER_CAP)
    } else {
        entries
    }
}

/// The ledger after the prompt `blocks` was recorded at `now`.
pub open spec fn recorded(
    entries: Seq<Fingerprint>,
    blocks: Seq<PromptInputBlock>,
    now: u64,
) -> Seq<Fingerprint> {
    match prompt_fingerprint(blocks) {
        Some(text) => newest(entries.push(Fingerprint { text, recorded_at: now })),
        None => entries,
    }
}

/// The entry is young enough to be matched at `now`.
pub open spec fn fresh(entry: Fingerprint, now: u64) -> bool {
    elapsed(now, entry.recorded_at) < LEDGER_TTL_NANOS
}

/// The entries that are young enough at `now`.
pub open spec fn fresh_entries(entries: Seq<Fingerprint>, now: u64) -> Seq<Fingerprint> {
    entries.filter(|e: Fingerprint| fresh(e, now))
}

/// The position of the first entry with which `text` begins.
pub open spec fn first_match(entries: Seq<Fingerprint>, text: Seq<char>) -> Option<int>
    decreases entries.len(),
{
    if entries.len() == 0 {
        None
    } else if entries.first().text.is_prefix_of(text) {
        Some(0)
    } else {
        match first_match(entries.drop_first(), text) {
            Some(i) => Some(i + 1),
            None => None,
        }
    }
}

/// The ledger after `text` was looked up at `now`, and whether an entry matched. A
/// match takes its entry out; entries past their age go in any case, unless the text
/// is blank.
pub open spec fn consumed(entries: Seq<Fingerprint>, text: Seq<char>, now: u64) -> (
    Seq<Fingerprint>,
    bool,
) {
    let text = trimmed(text);
    if text.len() == 0 {
        (entries, false)
    } else {
        let kept = fresh_entries(entries, now);
        match first_match(kept, text) {
            Some(i) => (kept.remove(i), true),
            None => (kept, false),
        }
    }
}

proof fn lemma_first_match_some(entries: Seq<Fingerprint>, text: Seq<char>, at: int)
    requires
        0 <= at < entries.len(),
        entries[at].text.is_prefix_of(text),
        forall|k: int| 0 <= k < at ==> !(#[trigger] entries[k]).text.is_prefix_of(text),
    ensures
        first_match(entries, text) == Some(at),
    decreases entries.len(),
{
    if at > 0 {
        assert(!entries[0].text.is_prefix_of(text));
        let rest = entries.drop_first();
        assert(rest[at - 1] == entries[at]);
        assert forall|k: int| 0 <= k < at - 1 implies !(#[trigger] rest[k]).text.is_prefix_of(
            text,
        ) by {
            assert(rest[k] == entries[k + 1]);
        }
        lemma_first_match_some(rest, text, at - 1);
    }
}

proof fn lemma_first_match_none(entries: Seq<Fingerprint>, text: Seq<char>)
    requires
        forall|k: int| 0 <= k < entries.len() ==> !(#[trigger] entries[k]).text.is_prefix_of(text),
    ensures
        first_match(entries, text) is None,
    decreases entries.len(),
{
    if entries.len() > 0 {
        assert(!entries[0].text.is_prefix_of(text));
        let rest = entries.drop_first();
        assert forall|k: int| 0 <= k < rest.len() implies !(#[trigger] rest[k]).text.is_prefix_of(
            text,
        ) by {
            assert(rest[k] == entries[k + 1]);
        }
        lemma_first_match_none(rest, text);
    }
}

/// A match lies inside the list, and its entry is one with which the text begins.
proof fn lemma_first_match_inside(entries: Seq<Fingerprint>, text: Seq<char>)
    ensures
        first_match(entries, text) matches Some(i) ==> 0 <= i < entries.len()
            && entries[i].text.is_prefix_of(text),
    decreases entries.len(),
{
    if entries.len() > 0 && !entries.first().text.is_prefix_of(text) {
        lemma_first_match_inside(entries.drop_first(), text);
    }
}

impl PromptLedger {
    /// A ledger without entries.
    pub fn shared() -> (r: PromptLedger)
        ensures
            r@ == Seq::<Fingerprint>::empty(),
    {
        let r = PromptLedger { entries: Vec::new() };
        assert(r@ =~= Seq::<Fingerprint>::empty());
        r
    }

    /// Records a prompt that is about to be sent: the trimmed text of its first block
    /// with text. A prompt without text leaves no entry.
    pub fn record_prompt_blocks(&mut self, blocks: &[PromptInputBlock], now: u64)
        ensures
            final(self)@ == recorded(old(self)@, blocks@, now),
    {
        let mut i: usize = 0;
        assert(blocks@.skip(0) =~= blocks@);
        while i < blocks.len()
            invariant
                i <= blocks@.len(),
                self@ == old(self)@,
                prompt_fingerprint(blocks@) == prompt_fingerprint(blocks@.skip(i as int)),
            decreases blocks.len() - i,
        {
            assert(blocks@.skip(i as int).first() == blocks@[i as int]);
            assert(blocks@.skip(i as int).drop_first() =~= blocks@.skip(i + 1));
            match &blocks[i] {
                PromptInputBlock::Text { text } => {
                    let body: &str = trim(text.as_str());
                    if !body.is_empty() {
                        self.push(body.to_owned(), now);
                        return;
                    }
                },
                PromptInputBlock::Attachment => {},
            }
            i = i + 1;
        }
    }

    fn push(&mut self, fingerprint: String, now: u64)
        ensures
            final(self)@ == newest(
                old(self)@.push(Fingerprint { text: fingerprint@, recorded_at: now }),
            ),
    {
        let ghost before = self@;
        let ghost pushed = before.push(Fingerprint { text: fingerprint@, recorded_at: now });
        self.entries.push(LedgerEntry { fingerprint, recorded_at: now });
        assert(self@ =~= pushed);
        assert(pushed.skip(0) =~= pushed);
        let ghost mut dropped: int = 0;
        while self.entries.len() > LEDGER_CAP
            invariant
                0 <= dropped <= pushed.len(),
                self@ == pushed.skip(dropped),
                dropped > 0 ==> self@.len() >= LEDGER_CAP,
            decreases self.entries.len(),
        {
            let ghost was = self@;
            self.entries.remove(0);
            proof {
                assert(self@ =~= was.drop_first());
                assert(was.drop_first() =~= pushed.skip(dropped + 1));
                dropped = dropped + 1;
            }
        }
    }

    /// Looks up the initiating text of a transcript turn. A match takes its entry out,
    /// so that each prompt sent accounts for one turn.
    pub fn consume_matching(&mut self, initiator_text: &str, now: u64) -> (r: bool)
        ensures
            (final(self)@, r) == consumed(old(self)@, initiator_text@, now),
    {
        let text: &str = trim(initiator_text);
        if text.is_empty() {
            return false;
        }
        self.drop_expired(now);
        let mut i: usize = 0;
        while i < self.entries.len()
            invariant
                i <= self.entries@.len(),
                self@ == fresh_entries(old(self)@, now),
                text@ == trimmed(initiator_text@),
                text@.len() > 0,
                forall|k: int| 0 <= k < i ==> !(#[trigger] self@[k]).text.is_prefix_of(text@),
            decreases self.entries.len() - i,
        {
            assert(self@[i as int] == self.entries@[i as int]@);
            if starts_with(text, self.entries[i].fingerprint.as_str()) {
                let ghost was = self@;
                proof {
                    lemma_first_match_some(was, text@, i as int);
                }
                self.entries.remove(i);
                assert(self@ =~= was.remove(i as int));
                return true;
            }
            i = i + 1;
        }
        proof {
            lemma_first_match_none(self@, text@);
        }
        false
    }

    fn drop_expired(&mut self, now: u64)
        ensures
            final(self)@ == fresh_entries(old(self)@, now),
    {
        let ghost all = self@;
        let ghost keep = |e: Fingerprint| fresh(e, now);
        let mut i: usize = 0;
        let ghost mut seen: int = 0;
        proof {
            reveal(Seq::filter);
            assert(all.take(0).filter(keep) =~= Seq::<Fingerprint>::empty());
            assert(all.skip(0) =~= all);
        }
        while i < self.entries.len()
            invariant
                i <= self.entries@.len(),
                0 <= seen <= all.len(),
                self@.len() - i == all.len() - seen,
                self@.take(i as int) == all.take(seen).filter(keep),
                self@.skip(i as int) == all.skip(seen),
                keep == (|e: Fingerprint| fresh(e, now)),
            decreases self.entries.len() - i,
        {
            let ghost was = self@;
            proof {
                assert(was[i as int] == self.entries@[i as int]@);
                assert(was.skip(i as int)[0] == was[i as int]);
                assert(all.skip(seen)[0] == all[seen]);
                assert(all.take(seen + 1).drop_last() =~= all.take(seen));
                assert(all.take(seen + 1).last() == all[seen]);
                reveal(Seq::filter);
                assert(all.skip(seen).drop_first() =~= all.skip(seen + 1));
            }
            if elapsed_nanos(now, self.entries[i].recorded_at) < LEDGER_TTL_NANOS {
                i = i + 1;
                proof {
                    assert(self@.take(i as int) =~= was.take(i - 1).push(was[i - 1]));
                    assert(self@.skip(i as int) =~= was.skip(i - 1).drop_first());
                }
            } else {
                self.entries.remove(i);
                proof {
                    assert(self@ =~= was.remove(i as int));
                    assert(self@.take(i as int) =~= was.take(i as int));
                    assert(self@.skip(i as int) =~= was.skip(i as int).drop_first());
                }
            }
            proof {
                seen = seen + 1;
            }
        }
        proof {
            assert(self@.take(i as int) =~= self@);
            assert(all.take(seen) =~= all);
        }
    }
}

// ---------------------------------------------------------------------------
// What holds of the ledger as a whole
// ---------------------------------------------------------------------------

proof fn lemma_fingerprint_not_blank(blocks: Seq<PromptInputBlock>)
    ensures
        prompt_fingerprint(blocks) matches Some(text) ==> text.len() > 0,
    decreases blocks.len(),
{
    if blocks.len() > 0 {
        lemma_fingerprint_not_blank(blocks.drop_first());
    }
}

proof fn lemma_fresh_entries_come_from(entries: Seq<Fingerprint>, now: u64, i: int)
    requires
        0 <= i < fresh_entries(entries, now).len(),
    ensures
        entries.contains(fresh_entries(entries, now)[i]),
    decreases entries.len(),
{
    reveal(Seq::filter);
    if entries.len() > 0 {
        let rest = entries.drop_last();
        if i < fresh_entries(rest, now).len() {
            lemma_fresh_entries_come_from(rest, now, i);
            let k = choose|k: int| 0 <= k < rest.len() && rest[k] == fresh_entries(rest, now)[i];
            assert(entries[k] == fresh_entries(entries, now)[i]);
        } else {
            assert(fresh_entries(entries, now)[i] == entries.last());
        }
    }
}

proof fn lemma_no_match_stays(entries: Seq<Fingerprint>, text: Seq<char>, now: u64)
    requires
        forall|k: int| 0 <= k < entries.len() ==> !(#[trigger] entries[k]).text.is_prefix_of(text),
    ensures
        forall|k: int|
            0 <= k < fresh_entries(entries, now).len() ==> !(#[trigger] fresh_entries(
                entries,
                now,
            )[k]).text.is_prefix_of(text),
        first_match(fresh_entries(entries, now), text) is None,
{
    let kept = fresh_entries(entries, now);
    assert forall|k: int| 0 <= k < kept.len() implies !(#[trigger] kept[k]).text.is_prefix_of(
        text,
    ) by {
        lemma_fresh_entries_come_from(entries, now, k);
        let j = choose|j: int| 0 <= j < entries.len() && entries[j] == kept[k];
        assert(!entries[j].text.is_prefix_of(text));
    }
    lemma_first_match_none(kept, text);
}

/// Every prompt sent accounts for one turn of the transcript: the first turn that
/// begins with it is taken for the one that was sent, and the same text appearing
/// again later, at whatever time, is not.
pub proof fn law_prompt_accounts_for_one_turn(
    entries: Seq<Fingerprint>,
    blocks: Seq<PromptInputBlock>,
    text: Seq<char>,
    sent: u64,
    seen: u64,
    later: u64,
)
    requires
        prompt_fingerprint(blocks) matches Some(f) && f.is_prefix_of(trimmed(text)),
        elapsed(seen, sent) < LEDGER_TTL_NANOS,
        forall|k: int|
            0 <= k < entries.len() ==> !(#[trigger] entries[k]).text.is_prefix_of(trimmed(text)),
    ensures
        consumed(recorded(entries, blocks, sent), text, seen).1,
        !consumed(consumed(recorded(entries, blocks, sent), text, seen).0, text, later).1,
{
    let t = trimmed(text);
    let f = prompt_fingerprint(blocks)->0;
    let entry = Fingerprint { text: f, recorded_at: sent };
    let all = recorded(entries, blocks, sent);
    let older = all.drop_last();
    lemma_fingerprint_not_blank(blocks);
    assert(all.last() == entry);
    assert forall|k: int| 0 <= k < older.len() implies !(#[trigger] older[k]).text.is_prefix_of(
        t,
    ) by {
        let skipped = entries.len() - older.len();
        assert(older[k] == entries[k + skipped]);
    }
    lemma_no_match_stays(older, t, seen);
    let kept = fresh_entries(all, seen);
    let kept_older = fresh_entries(older, seen);
    assert(kept == kept_older.push(entry)) by {
        reveal(Seq::filter);
    }
    let at = kept_older.len() as int;
    assert forall|k: int| 0 <= k < at implies !(#[trigger] kept[k]).text.is_prefix_of(t) by {
        assert(kept[k] == kept_older[k]);
    }
    lemma_first_match_some(kept, t, at);
    assert(kept.remove(at) =~= kept_older);
    lemma_no_match_stays(kept_older, t, later);
}

/// A prompt that was never seen in the transcript is forgotten: past its age it no
/// longer takes a turn for its own.
pub proof fn law_stale_prompt_is_not_matched(
    entries: Seq<Fingerprint>,
    blocks: Seq<PromptInputBlock>,
    text: Seq<char>,
    sent: u64,
    seen: u64,
)
    requires
        elapsed(seen, sent) >= LEDGER_TTL_NANOS,
        forall|k: int|
            0 <= k < entries.len() ==> !(#[trigger] entries[k]).text.is_prefix_of(trimmed(text)),
    ensures
        !consumed(recorded(entries, blocks, sent), text, seen).1,
{
    let t = trimmed(text);
    match prompt_fingerprint(blocks) {
        Some(f) => {
            let all = recorded(entries, blocks, sent);
            let older = all.drop_last();
            assert forall|k: int| 0 <= k < older.len() implies !(
            #[trigger] older[k]).text.is_prefix_of(t) by {
                let skipped = entries.len() - older.len();
                assert(older[k] == entries[k + skipped]);
            }
            lemma_no_match_stays(older, t, seen);
            assert(fresh_entries(all, seen) =~= fresh_entries(older, seen)) by {
                reveal(Seq::filter);
                assert(all.last() == Fingerprint { text: f, recorded_at: sent });
            }
        },
        None => {
            lemma_no_match_stays(entries, t, seen);
        },
    }
}

/// A lookup matches if and only if some entry that is young enough begins the text,
/// and then exactly that one entry goes.
pub proof fn law_match_takes_exactly_one_entry(
    entries: Seq<Fingerprint>,
    text: Seq<char>,
    now: u64,
)
    requires
        trimmed(text).len() > 0,
    ensures
        consumed(entries, text, now).1 <==> exists|i: int|
            0 <= i < fresh_entries(entries, now).len() && (#[trigger] fresh_entries(
                entries,
                now,
            )[i]).text.is_prefix_of(trimmed(text)),
        consumed(entries, text, now).0.len() == fresh_entries(entries, now).len() - if consumed(
            entries,
            text,
            now,
        ).1 {
            1int
        } else {
            0int
        },
{
    let kept = fresh_entries(entries, now);
    lemma_first_match_inside(kept, trimmed(text));
    if !consumed(entries, text, now).1 {
        if exists|i: int|
            0 <= i < kept.len() && (#[trigger] kept[i]).text.is_prefix_of(trimmed(text)) {
            lemma_match_is_found(kept, trimmed(text));
        }
    }
}

proof fn lemma_match_is_found(entries: Seq<Fingerprint>, text: Seq<char>)
    requires
        exists|i: int| 0 <= i < entries.len() && (#[trigger] entries[i]).text.is_prefix_of(text),
    ensures
        first_match(entries, text) is Some,
    decreases entries.len(),
{
    let i = choose|i: int|
        0 <= i < entries.len() && (#[trigger] entries[i]).text.is_prefix_of(text);
    if !entries.first().text.is_prefix_of(text) {
        assert(entries.drop_first()[i - 1] == entries[i]);
        lemma_match_is_found(entries.drop_first(), text);
    }
}

/// The ledger never holds more than `LEDGER_CAP` entries.
pub proof fn law_ledger_stays_bounded(
    entries: Seq<Fingerprint>,
    blocks: Seq<PromptInputBlock>,
    text: Seq<char>,
    now: u64,
)
    requires
        entries.len() <= LEDGER_CAP,
    ensures
        recorded(entries, blocks, now).len() <= LEDGER_CAP,
        consumed(entries, text, now).0.len() <= LEDGER_CAP,
{
    entries.lemma_filter_len(|e: Fingerprint| fresh(e, now));
    lemma_first_match_inside(fresh_entries(entries, now), trimmed(text));
}

/// A prompt is known by its first text that is not blank, without whitespace around it;
/// attachments and blank texts before it do not count, and neither does what follows. A
/// prompt of nothing else is not known by anything.
pub proof fn law_prompt_is_known_by_its_first_text(
    before: Seq<PromptInputBlock>,
    text: String,
    behind: Seq<PromptInputBlock>,
)
    requires
        forall|i: int|
            0 <= i < before.len() ==> match #[trigger] before[i] {
                PromptInputBlock::Text { text } => trimmed(text@).len() == 0,
                PromptInputBlock::Attachment => true,
            },
    ensures
        prompt_fingerprint(before) is None,
        trimmed(text@).len() > 0 ==> prompt_fingerprint(
            before + seq![PromptInputBlock::Text { text }] + behind,
        ) == Some(trimmed(text@)),
    decreases before.len(),
{
    let all = before + seq![PromptInputBlock::Text { text }] + behind;
    if before.len() > 0 {
        let rest = before.drop_first();
        assert forall|i: int| 0 <= i < rest.len() implies match #[trigger] rest[i] {
            PromptInputBlock::Text { text } => trimmed(text@).len() == 0,
            PromptInputBlock::Attachment => true,
        } by {
            assert(rest[i] == before[i + 1]);
        }
        law_prompt_is_known_by_its_first_text(rest, text, behind);
        assert(all.drop_first() =~= rest + seq![PromptInputBlock::Text { text }] + behind);
        assert(all.first() == before[0]);
        assert(before.first() == before[0]);
    }
}

/// A prompt is recorded behind the others, with the time; of more than 32 the oldest go. A
/// prompt that is not known by anything leaves no trace.
pub proof fn law_prompt_is_recorded_last(
    entries: Seq<Fingerprint>,
    blocks: Seq<PromptInputBlock>,
    now: u64,
)
    ensures
        prompt_fingerprint(blocks) is None ==> recorded(entries, blocks, now) == entries,
        prompt_fingerprint(blocks) matches Some(text) ==> {
            let entry = Fingerprint { text, recorded_at: now };
            &&& entries.len() < 32 ==> recorded(entries, blocks, now) == entries.push(entry)
            &&& entries.len() >= 32 ==> recorded(entries, blocks, now) == entries.skip(
                entries.len() - 31,
            ).push(entry)
        },
{
    if prompt_fingerprint(blocks) is Some && entries.len() >= 32 {
        let entry = Fingerprint { text: prompt_fingerprint(blocks)->0, recorded_at: now };
        assert(entries.push(entry).skip(entries.len() + 1 - 32) =~= entries.skip(
            entries.len() - 31,
        ).push(entry));
    }
}

/// A recorded prompt counts for ten minutes: those younger stay, in order, and those as old
/// or older go.
pub proof fn law_prompts_count_for_ten_minutes(
    entries: Seq<Fingerprint>,
    entry: Fingerprint,
    now: u64,
)
    ensures
        fresh_entries(Seq::empty(), now).len() == 0,
        now < entry.recorded_at || now - entry.recorded_at < 600_000_000_000 ==> fresh_entries(
            entries.push(entry),
            now,
        ) == fresh_entries(entries, now).push(entry),
        now >= entry.recorded_at && now - entry.recorded_at >= 600_000_000_000 ==> fresh_entries(
            entries.push(entry),
            now,
        ) == fresh_entries(entries, now),
{
    reveal(Seq::filter);
    assert(entries.push(entry).drop_last() =~= entries);
}

/// A turn is taken for the oldest prompt that counts and that its text begins with. That
/// prompt goes, and of the others those that count stay.
pub proof fn law_turn_takes_the_oldest_match(
    entries: Seq<Fingerprint>,
    text: Seq<char>,
    now: u64,
    at: int,
)
    requires
        trimmed(text).len() > 0,
        0 <= at < entries.len(),
        now < entries[at].recorded_at || now - entries[at].recorded_at < 600_000_000_000,
        entries[at].text.is_prefix_of(trimmed(text)),
        forall|k: int|
            0 <= k < at ==> !(#[trigger] entries[k]).text.is_prefix_of(trimmed(text)) || (now
                >= entries[k].recorded_at && now - entries[k].recorded_at >= 600_000_000_000),
    ensures
        consumed(entries, text, now).1,
        consumed(entries, text, now).0 == fresh_entries(entries.take(at), now) + fresh_entries(
            entries.skip(at + 1),
            now,
        ),
{
    let head = entries.take(at);
    let tail = entries.skip(at + 1);
    let entry = entries[at];
    let wanted = trimmed(text);
    let is_fresh = |e: Fingerprint| fresh(e, now);
    assert(entries =~= head.push(entry) + tail);
    Seq::filter_distributes_over_add(head.push(entry), tail, is_fresh);
    law_prompts_count_for_ten_minutes(head, entry, now);
    let kept = fresh_entries(entries, now);
    let first = fresh_entries(head, now);
    let rest = fresh_entries(tail, now);
    assert(kept == first.push(entry) + rest);
    assert forall|k: int| 0 <= k < first.len() implies !(#[trigger] kept[k]).text.is_prefix_of(
        wanted,
    ) by {
        assert(kept[k] == first[k]);
        head.lemma_filter_pred(is_fresh, k);
        lemma_fresh_entries_come_from(head, now, k);
        let j = choose|j: int| 0 <= j < head.len() && head[j] == first[k];
        assert(head[j] == entries[j]);
    }
    assert(kept[first.len() as int] == entry);
    lemma_first_match_some(kept, wanted, first.len() as int);
    assert(kept.remove(first.len() as int) =~= first + rest);
}

/// A turn that begins with none of the prompts that count, or with nothing, is not taken
/// for one; a turn of whitespace alone leaves the ledger untouched.
pub proof fn law_unknown_turn_is_taken_for_none(
    entries: Seq<Fingerprint>,
    text: Seq<char>,
    now: u64,
)
    ensures
        trimmed(text).len() == 0 ==> consumed(entries, text, now) == (entries, false),
        (forall|k: int|
            0 <= k < entries.len() ==> !(#[trigger] entries[k]).text.is_prefix_of(trimmed(text))
                || (now >= entries[k].recorded_at && now - entries[k].recorded_at
                >= 600_000_000_000)) && trimmed(text).len() > 0 ==> consumed(entries, text, now)
            == (fresh_entries(entries, now), false),
{
    let wanted = trimmed(text);
    let is_fresh = |e: Fingerprint| fresh(e, now);
    if (forall|k: int|
        0 <= k < entries.len() ==> !(#[trigger] entries[k]).text.is_prefix_of(trimmed(text)) || (now
            >= entries[k].recorded_at && now - entries[k].recorded_at >= 600_000_000_000))
        && wanted.len() > 0 {
        let kept = fresh_entries(entries, now);
        assert forall|k: int| 0 <= k < kept.len() implies !(#[trigger] kept[k]).text.is_prefix_of(
            wanted,
        ) by {
            entries.lemma_filter_pred(is_fresh, k);
            lemma_fresh_entries_come_from(entries, now, k);
            let j = choose|j: int| 0 <= j < entries.len() && entries[j] == kept[k];
            assert(!entries[j].text.is_prefix_of(wanted) || !is_fresh(entries[j]));
        }
        lemma_first_match_none(kept, wanted);
    }
}


} // verus!
