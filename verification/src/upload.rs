//! Attachment uploads: names, sizes and the quota on what is kept.
use std::sync::atomic::{AtomicU64, Ordering};

use vstd::prelude::*;

use crate::bytes::same_bytes;
use crate::error::{AppCommandError, AppErrorCode, ErrorView, I18nKey, params_view};
use crate::number::{decimal, decimal_text, parse_u64, u64_of_text};
use crate::text::{
    ascii_alphanumeric, ascii_lower, ascii_lower_char, chars_of, control, is_ascii_alphanumeric,
    is_control, opt_view, same_text, string_of, trim, trim_of, trimmed, trimmed_of, TrimSet,
};

verus! {

/// The largest attachment, in bytes.
pub const UPLOAD_MAX_BYTES: u64 = 2 * 1024 * 1024;

// ---------------------------------------------------------------------------
// The quota setting
// ---------------------------------------------------------------------------

/// What the setting for the total size of all uploads says.
#[derive(Debug, Clone, PartialEq, Eq)]
pub enum UploadQuotaConfig {
    /// Not set: no cap.
    Unset,
    /// Set to zero: no cap.
    Disabled,
    /// A cap of this many bytes.
    Enabled(u64),
    /// Set to this text, which is no number of bytes: no cap.
    Invalid(String),
}

/// The model of an [`UploadQuotaConfig`].
pub enum QuotaView {
    Unset,
    Disabled,
    Enabled(u64),
    Invalid(Seq<char>),
}

impl View for UploadQuotaConfig {
    type V = QuotaView;

    open spec fn view(&self) -> QuotaView {
        match self {
            UploadQuotaConfig::Unset => QuotaView::Unset,
            UploadQuotaConfig::Disabled => QuotaView::Disabled,
            UploadQuotaConfig::Enabled(n) => QuotaView::Enabled(*n),
            UploadQuotaConfig::Invalid(s) => QuotaView::Invalid(s@),
        }
    }
}

impl UploadQuotaConfig {
    /// The cap, if there is one.
    pub fn cap_bytes(&self) -> (r: Option<u64>)
        ensures
            r == (match self@ {
                QuotaView::Enabled(n) => Some(n),
                _ => None,
            }),
    {
        match self {
            UploadQuotaConfig::Enabled(c) => Some(*c),
            _ => None,
        }
    }
}

/// What a setting says: blank counts as not set, surrounding whitespace does not
/// matter.
pub open spec fn quota_of(raw: Option<Seq<char>>) -> QuotaView {
    match raw {
        None => QuotaView::Unset,
        Some(s) => {
            let body = trimmed(s);
            if body.len() == 0 {
                QuotaView::Unset
            } else {
                match u64_of_text(body) {
                    Some(n) => if n == 0 {
                        QuotaView::Disabled
                    } else {
                        QuotaView::Enabled(n)
                    },
                    None => QuotaView::Invalid(body),
                }
            }
        },
    }
}

/// Reads the setting for the total size of all uploads.
pub fn parse_upload_quota_config(raw: Option<&str>) -> (r: UploadQuotaConfig)
    ensures
        r@ == quota_of(crate::json::opt_str(raw)),
{
    match raw {
        None => UploadQuotaConfig::Unset,
        Some(s) => {
            let body: &str = trim(s);
            if body.is_empty() {
                return UploadQuotaConfig::Unset;
            }
            match parse_u64(body) {
                Some(n) => {
                    if n == 0 {
                        UploadQuotaConfig::Disabled
                    } else {
                        UploadQuotaConfig::Enabled(n)
                    }
                },
                None => UploadQuotaConfig::Invalid(body.to_owned()),
            }
        },
    }
}

/// `s` with `A`–`Z` replaced by `a`–`z`.
pub open spec fn ascii_lowered(s: Seq<char>) -> Seq<char> {
    s.map_values(|c: char| ascii_lower(c))
}

/// The setting switches something on: one of four words, whatever the case and the
/// whitespace around it.
pub open spec fn truthy(raw: Option<Seq<char>>) -> bool {
    match raw {
        None => false,
        Some(s) => {
            let word = ascii_lowered(trimmed(s));
            word == "1"@ || word == "true"@ || word == "yes"@ || word == "on"@
        },
    }
}

fn ascii_lower_text(s: &str) -> (r: String)
    ensures
        r@ == ascii_lowered(s@),
{
    let chars: Vec<char> = chars_of(s);
    let mut out: Vec<char> = Vec::new();
    let mut i: usize = 0;
    while i < chars.len()
        invariant
            i <= chars.len(),
            chars@ == s@,
            out@ == ascii_lowered(s@).take(i as int),
        decreases chars.len() - i,
    {
        out.push(ascii_lower_char(chars[i]));
        i = i + 1;
        assert(out@ =~= ascii_lowered(s@).take(i as int));
    }
    assert(out@ =~= ascii_lowered(s@));
    string_of(out.as_slice())
}

/// Reads a setting that switches something on or off.
pub fn parse_strict_mode(raw: Option<&str>) -> (r: bool)
    ensures
        r == truthy(crate::json::opt_str(raw)),
{
    match raw {
        None => false,
        Some(s) => {
            let word: String = ascii_lower_text(trim(s));
            same_text(word.as_str(), "1") || same_text(word.as_str(), "true") || same_text(
                word.as_str(),
                "yes",
            ) || same_text(word.as_str(), "on")
        },
    }
}

/// What to tell the operator about the quota at startup.
#[derive(Debug, PartialEq, Eq)]
pub enum QuotaNotice {
    /// No cap, since none is set.
    NotSet,
    /// No cap, since it is set to zero.
    SwitchedOff,
    /// A cap of this many bytes.
    Cap(u64),
    /// The setting is no number of bytes: there is no cap.
    Warn(String),
    /// The setting is no number of bytes, and startup has to stop.
    Fatal(String),
}

/// The model of a [`QuotaNotice`].
pub enum NoticeView {
    NotSet,
    SwitchedOff,
    Cap(u64),
    Warn(Seq<char>),
    Fatal(Seq<char>),
}

impl View for QuotaNotice {
    type V = NoticeView;

    open spec fn view(&self) -> NoticeView {
        match self {
            QuotaNotice::NotSet => NoticeView::NotSet,
            QuotaNotice::SwitchedOff => NoticeView::SwitchedOff,
            QuotaNotice::Cap(n) => NoticeView::Cap(*n),
            QuotaNotice::Warn(s) => NoticeView::Warn(s@),
            QuotaNotice::Fatal(s) => NoticeView::Fatal(s@),
        }
    }
}

/// The notice for a setting. Only a text that is no number of bytes is worth more than
/// a plain line, and it stops the startup in strict mode alone.
pub open spec fn notice_of(config: QuotaView, strict: bool) -> NoticeView {
    match config {
        QuotaView::Unset => NoticeView::NotSet,
        QuotaView::Disabled => NoticeView::SwitchedOff,
        QuotaView::Enabled(n) => NoticeView::Cap(n),
        QuotaView::Invalid(raw) => if strict {
            NoticeView::Fatal(raw)
        } else {
            NoticeView::Warn(raw)
        },
    }
}

/// Decides what to tell the operator about the quota at startup.
pub fn upload_quota_notice(config: &UploadQuotaConfig, strict: bool) -> (r: QuotaNotice)
    ensures
        r@ == notice_of(config@, strict),
{
    match config {
        UploadQuotaConfig::Unset => QuotaNotice::NotSet,
        UploadQuotaConfig::Disabled => QuotaNotice::SwitchedOff,
        UploadQuotaConfig::Enabled(n) => QuotaNotice::Cap(*n),
        UploadQuotaConfig::Invalid(raw) => if strict {
            QuotaNotice::Fatal(raw.clone())
        } else {
            QuotaNotice::Warn(raw.clone())
        },
    }
}

// ---------------------------------------------------------------------------
// Reservations
// ---------------------------------------------------------------------------

/// The smaller of `n` and the largest `u64`.
pub open spec fn saturated(n: int) -> int {
    if n > u64::MAX {
        u64::MAX as int
    } else {
        n
    }
}

/// The bytes in flight after a reservation of `bytes` on top of `current`; `None` where
/// what is on disk, what is in flight and the reservation together exceed `cap`, or the
/// tally cannot hold the sum.
pub open spec fn in_flight_after(current: u64, bytes: u64, used: u64, cap: u64) -> Option<u64> {
    if saturated(used + current + bytes) > cap || current + bytes > u64::MAX {
        None
    } else {
        Some((current + bytes) as u64)
    }
}

/// The bytes in flight after a reservation, if it fits.
pub fn next_in_flight(current: u64, bytes: u64, used: u64, cap: u64) -> (r: Option<u64>)
    ensures
        r == in_flight_after(current, bytes, used, cap),
{
    let projected: u64 = used.saturating_add(current).saturating_add(bytes);
    if projected > cap {
        return None;
    }
    current.checked_add(bytes)
}

/// `AtomicU64::fetch_update`: the tally is replaced by what [`next_in_flight`] makes of
/// the value at hand, without another update in between. `Ok` carries the value that
/// was replaced, `Err` the value that was left in place since nothing was to replace
/// it. What the tally holds before the call is not said: other threads change it.
#[verifier::external_body]
fn reserve_in(counter: &AtomicU64, bytes: u64, used: u64, cap: u64) -> (r: Result<u64, u64>)
    ensures
        match r {
            Ok(current) => in_flight_after(current, bytes, used, cap) is Some,
            Err(current) => in_flight_after(current, bytes, used, cap) is None,
        },
{
    counter.fetch_update(
        Ordering::AcqRel,
        Ordering::Acquire,
        |current| next_in_flight(current, bytes, used, cap),
    )
}

/// A reservation. It is given back when the guard goes out of scope.
#[derive(Debug)]
pub struct InFlightGuard<'a> {
    counter: &'a AtomicU64,
    bytes: u64,
}

impl<'a> InFlightGuard<'a> {
    /// The number of bytes that the guard holds.
    pub closed spec fn held(self) -> u64 {
        self.bytes
    }

    /// The tally that the bytes go back to.
    pub closed spec fn tally(self) -> &'a AtomicU64 {
        self.counter
    }
}

impl<'a> Drop for InFlightGuard<'a> {
    fn drop(&mut self)
        opens_invariants none
        no_unwind
    {
        give_back(self.counter, self.bytes);
    }
}

/// `AtomicU64::fetch_sub`: takes `bytes` off the tally.
#[verifier::external_body]
fn give_back(counter: &AtomicU64, bytes: u64)
    opens_invariants none
    no_unwind
{
    counter.fetch_sub(bytes, Ordering::AcqRel);
}

/// Reserves `bytes` for an upload that is about to start.
///
/// Uploads that run at the same time share the tally, so whether a reservation fits
/// rests on the value that the tally has at that moment.
pub fn try_reserve_in_flight<'a>(
    counter: &'a AtomicU64,
    bytes: u64,
    used: u64,
    cap: u64,
) -> (r: Result<InFlightGuard<'a>, ()>)
    ensures
        match r {
            Ok(guard) => guard.held() == bytes && guard.tally() == counter && exists|current: u64|
                in_flight_after(current, bytes, used, cap) is Some,
            Err(_) => exists|current: u64| in_flight_after(current, bytes, used, cap) is None,
        },
        saturated(used + bytes) > cap ==> r is Err,
{
    match reserve_in(counter, bytes, used, cap) {
        Ok(_) => Ok(InFlightGuard { counter, bytes }),
        Err(_) => Err(()),
    }
}

/// The uploads under way together with what was already kept never exceed the cap: a
/// reservation that is granted leaves the sum within it, whatever was reserved before.
pub proof fn law_reservation_stays_within_cap(current: u64, bytes: u64, used: u64, cap: u64)
    requires
        cap < u64::MAX,
    ensures
        in_flight_after(current, bytes, used, cap) matches Some(next) ==> used + next <= cap && next
            == current + bytes,
        in_flight_after(current, bytes, used, cap) is None <==> used + current + bytes > cap,
{
}

/// A reservation and its release leave the tally as it was.
pub proof fn law_release_undoes_reservation(current: u64, bytes: u64, used: u64, cap: u64)
    ensures
        in_flight_after(current, bytes, used, cap) matches Some(next) ==> next >= bytes && next
            - bytes == current,
{
}

/// What happens to a tally, in the order in which it takes effect there.
pub enum TallyChange {
    /// A reservation of so many bytes is asked for.
    Reserve(u64),
    /// The guard at this position among those that live is given back.
    GiveBack(int),
}

/// A tally, with the bytes that each living guard holds.
pub struct Tally {
    pub value: u64,
    pub live: Seq<u64>,
}

impl Tally {
    /// A tally that no one has reserved from.
    pub open spec fn empty() -> Tally {
        Tally { value: 0, live: Seq::empty() }
    }

    /// The tally after a change, where `used` bytes are on disk and `cap` is the limit.
    pub open spec fn after(self, change: TallyChange, used: u64, cap: u64) -> Tally {
        match change {
            TallyChange::Reserve(bytes) => match in_flight_after(self.value, bytes, used, cap) {
                Some(value) => Tally { value, live: self.live.push(bytes) },
                None => self,
            },
            TallyChange::GiveBack(i) => if 0 <= i < self.live.len() {
                Tally { value: (self.value - self.live[i]) as u64, live: self.live.remove(i) }
            } else {
                self
            },
        }
    }

    /// The tally after several changes.
    pub open spec fn after_all(self, changes: Seq<TallyChange>, used: u64, cap: u64) -> Tally
        decreases changes.len(),
    {
        if changes.len() == 0 {
            self
        } else {
            self.after_all(changes.drop_last(), used, cap).after(changes.last(), used, cap)
        }
    }
}

/// The bytes that guards hold together.
pub open spec fn held_together(live: Seq<u64>) -> nat
    decreases live.len(),
{
    if live.len() == 0 {
        0
    } else {
        held_together(live.drop_last()) + live.last() as nat
    }
}

proof fn lemma_held_without(live: Seq<u64>, i: int)
    requires
        0 <= i < live.len(),
    ensures
        held_together(live) == held_together(live.remove(i)) + live[i],
    decreases live.len(),
{
    if i == live.len() - 1 {
        assert(live.remove(i) =~= live.drop_last());
    } else {
        lemma_held_without(live.drop_last(), i);
        assert(live.remove(i).drop_last() =~= live.drop_last().remove(i));
        assert(live.remove(i).last() == live.last());
    }
}

/// However uploads that run at the same time reserve and give back, the tally is what
/// the living guards hold together, and while any lives that and what was already kept
/// come to no more than the cap.
pub proof fn law_tally_is_what_the_guards_hold(changes: Seq<TallyChange>, used: u64, cap: u64)
    requires
        cap < u64::MAX,
    ensures
        ({
            let end = Tally::empty().after_all(changes, used, cap);
            &&& end.value == held_together(end.live)
            &&& end.live.len() > 0 ==> used + end.value <= cap
        }),
    decreases changes.len(),
{
    if changes.len() > 0 {
        law_tally_is_what_the_guards_hold(changes.drop_last(), used, cap);
        let before = Tally::empty().after_all(changes.drop_last(), used, cap);
        match changes.last() {
            TallyChange::Reserve(bytes) => {
                assert(before.live.push(bytes).drop_last() =~= before.live);
            },
            TallyChange::GiveBack(i) => {
                if 0 <= i < before.live.len() {
                    lemma_held_without(before.live, i);
                }
            },
        }
    }
}

/// The error for an upload that does not fit under the quota.
pub open spec fn quota_exceeded(used: u64, cap: u64) -> ErrorView {
    ErrorView::plain(AppErrorCode::IoError, "Upload quota exceeded for this server"@).with_detail(
        "used="@ + decimal(used as nat) + " limit="@ + decimal(cap as nat),
    ).with_i18n(
        I18nKey::UploadQuotaExceeded,
        seq![("limit"@, decimal(cap as nat)), ("used"@, decimal(used as nat))],
    )
}

fn named_pair(first: (&str, u64), second: (&str, u64)) -> (r: Vec<(String, String)>)
    ensures
        params_view(r@) == seq![
            (first.0@, decimal(first.1 as nat)),
            (second.0@, decimal(second.1 as nat)),
        ],
{
    let mut params: Vec<(String, String)> = Vec::new();
    params.push((first.0.to_owned(), decimal_text(first.1)));
    params.push((second.0.to_owned(), decimal_text(second.1)));
    assert(params_view(params@) =~= seq![
        (first.0@, decimal(first.1 as nat)),
        (second.0@, decimal(second.1 as nat)),
    ]);
    params
}

fn amounts(first: &str, a: u64, second: &str, b: u64) -> (r: String)
    ensures
        r@ == first@ + decimal(a as nat) + second@ + decimal(b as nat),
{
    let mut out: String = first.to_owned();
    out.append(decimal_text(a).as_str());
    out.append(second);
    out.append(decimal_text(b).as_str());
    out
}

fn quota_error(used: u64, cap: u64) -> (r: AppCommandError)
    ensures
        r@ == quota_exceeded(used, cap),
{
    AppCommandError::io_error("Upload quota exceeded for this server").with_detail(
        amounts("used=", used, " limit=", cap),
    ).with_i18n(I18nKey::UploadQuotaExceeded, named_pair(("limit", cap), ("used", used)))
}

/// Admits an upload: the largest attachment is reserved under the cap, if there is one.
pub fn admit_upload<'a>(counter: &'a AtomicU64, used: u64, cap: Option<u64>) -> (r: Result<
    Option<InFlightGuard<'a>>,
    AppCommandError,
>)
    ensures
        cap is None ==> (r matches Ok(guard) && guard is None),
        cap matches Some(limit) ==> match r {
            Ok(guard) => guard matches Some(g) && g.held() == UPLOAD_MAX_BYTES && g.tally()
                == counter && exists|current: u64|
                in_flight_after(current, UPLOAD_MAX_BYTES, used, limit) is Some,
            Err(e) => e@ == quota_exceeded(used, limit) && exists|current: u64|
                in_flight_after(current, UPLOAD_MAX_BYTES, used, limit) is None,
        },
        cap matches Some(limit) ==> saturated(used + UPLOAD_MAX_BYTES) > limit ==> r is Err,
{
    match cap {
        None => Ok(None),
        Some(limit) => match try_reserve_in_flight(counter, UPLOAD_MAX_BYTES, used, limit) {
            Ok(guard) => Ok(Some(guard)),
            Err(_) => Err(quota_error(used, limit)),
        },
    }
}

// ---------------------------------------------------------------------------
// What is kept
// ---------------------------------------------------------------------------

/// What stands below the uploads directory. What could not be read is `None`.
#[derive(Debug)]
pub enum UploadNode {
    /// A regular file, with its size.
    File(Option<u64>),
    /// A directory, with its entries.
    Directory(Option<Vec<Option<UploadNode>>>),
    /// Something else, or an entry whose type could not be read.
    Other,
}

/// An entry of the uploads directory.
#[derive(Debug)]
pub struct UploadEntry {
    pub name: String,
    pub node: UploadNode,
}

/// The bytes of all regular files in `node`, at any depth. What could not be read counts
/// for nothing.
pub open spec fn node_bytes(node: UploadNode) -> nat
    decreases node,
{
    match node {
        UploadNode::File(Some(len)) => len as nat,
        UploadNode::Directory(Some(nodes)) => nodes_bytes(nodes@),
        _ => 0,
    }
}

/// The bytes of all regular files in `nodes`.
pub open spec fn nodes_bytes(nodes: Seq<Option<UploadNode>>) -> nat
    decreases nodes,
{
    if nodes.len() == 0 {
        0
    } else {
        nodes_bytes(nodes.subrange(0, nodes.len() - 1)) + match nodes[nodes.len() - 1] {
            Some(node) => node_bytes(node),
            None => 0,
        }
    }
}

/// The bytes that an entry of the uploads directory counts for: those of all regular
/// files in it. The staging directory counts for nothing.
pub open spec fn entry_bytes(entry: Option<UploadEntry>) -> nat {
    match entry {
        None => 0,
        Some(e) => if e.name@ == ".tmp"@ {
            0
        } else {
            node_bytes(e.node)
        },
    }
}

/// The bytes that all entries count for.
pub open spec fn listing_bytes(entries: Seq<Option<UploadEntry>>) -> nat
    decreases entries.len(),
{
    if entries.len() == 0 {
        0
    } else {
        listing_bytes(entries.drop_last()) + entry_bytes(entries.last())
    }
}

fn node_total(node: &UploadNode, start: u64) -> (total: u64)
    ensures
        total == saturated(start + node_bytes(*node)),
    decreases node,
{
    match node {
        UploadNode::File(Some(len)) => start.saturating_add(*len),
        UploadNode::Directory(Some(nodes)) => {
            let mut total: u64 = start;
            let mut i: usize = 0;
            while i < nodes.len()
                invariant
                    i <= nodes@.len(),
                    node == (UploadNode::Directory(Some(*nodes))),
                    total == saturated(start + nodes_bytes(nodes@.take(i as int))),
                decreases nodes.len() - i,
            {
                let ghost before = nodes@.take(i as int);
                let ghost after = nodes@.take(i + 1);
                proof {
                    assert(after.subrange(0, after.len() - 1) =~= before);
                    assert(after[after.len() - 1] == nodes@[i as int]);
                }
                match &nodes[i] {
                    Some(inner) => {
                        assert(decreases_to!(node => node->Directory_0->Some_0@[i as int]->Some_0));
                        total = node_total(inner, total);
                    },
                    None => {},
                }
                i = i + 1;
            }
            assert(nodes@.take(i as int) =~= nodes@);
            total
        },
        _ => start,
    }
}

/// The total size of all uploads: of every regular file below the uploads directory, at
/// any depth, without the staging directory. `entries` is `None` where the uploads
/// directory is missing or could not be read. A total that does not fit is given as the
/// largest number.
pub fn current_uploads_total_bytes(entries: Option<&Vec<Option<UploadEntry>>>) -> (total: u64)
    ensures
        total == (match entries {
            Some(list) => saturated(listing_bytes(list@) as int),
            None => 0,
        }),
{
    match entries {
        None => 0,
        Some(list) => {
            let mut total: u64 = 0;
            let mut i: usize = 0;
            while i < list.len()
                invariant
                    i <= list@.len(),
                    total == saturated(listing_bytes(list@.take(i as int)) as int),
                decreases list.len() - i,
            {
                proof {
                    assert(list@.take(i + 1).drop_last() =~= list@.take(i as int));
                }
                match &list[i] {
                    Some(e) => {
                        if !same_text(e.name.as_str(), ".tmp") {
                            total = node_total(&e.node, total);
                        }
                    },
                    None => {},
                }
                i = i + 1;
            }
            assert(list@.take(i as int) =~= list@);
            total
        },
    }
}

// ---------------------------------------------------------------------------
// Names
// ---------------------------------------------------------------------------

/// The character separates the components of a path, on any platform.
pub open spec fn is_separator(c: char) -> bool {
    c == '/' || c == '\\'
}

/// What follows the last separator.
pub open spec fn last_component(s: Seq<char>) -> Seq<char>
    decreases s.len(),
{
    if s.len() == 0 || is_separator(s.last()) {
        Seq::empty()
    } else {
        last_component(s.drop_last()).push(s.last())
    }
}

/// The character has a meaning to a shell or a file system.
pub open spec fn is_hostile(c: char) -> bool {
    is_separator(c) || c == ':' || c == '*' || c == '?' || c == '"' || c == '<' || c == '>' || c
        == '|' || c == '\0'
}

/// `c`, or an underscore in place of a hostile character.
pub open spec fn tamed(c: char) -> char {
    if is_hostile(c) {
        '_'
    } else {
        c
    }
}

/// `s` without control characters and with hostile characters replaced.
pub open spec fn cleaned(s: Seq<char>) -> Seq<char>
    decreases s.len(),
{
    if s.len() == 0 {
        s
    } else if is_control(s.last()) {
        cleaned(s.drop_last())
    } else {
        cleaned(s.drop_last()).push(tamed(s.last()))
    }
}

/// The first `n` characters of `s`.
pub open spec fn at_most(s: Seq<char>, n: int) -> Seq<char> {
    if s.len() > n {
        s.take(n)
    } else {
        s
    }
}

/// The name under which an attachment called `raw` is kept: the last component of the
/// path, without dots and whitespace at its ends, cleaned, and no longer than 120
/// characters. Where nothing is left the name is `file`.
pub open spec fn upload_name(raw: Seq<char>) -> Seq<char> {
    let base = trimmed_of(last_component(raw), TrimSet::DotsAndWhitespace);
    let name = at_most(trimmed_of(cleaned(base), TrimSet::DotsAndWhitespace), 120);
    if name.len() == 0 {
        "file"@
    } else {
        name
    }
}

/// `c`, or an underscore in place of a character that has no business in a session id.
pub open spec fn bucket_char(c: char) -> char {
    if is_ascii_alphanumeric(c) || c == '-' || c == '_' {
        c
    } else {
        '_'
    }
}

/// The directory for the uploads of the session `raw`: letters, digits, `-` and `_`,
/// without underscores at its ends, and no longer than 80 characters. Where nothing is
/// left the directory is `anon`.
pub open spec fn bucket_name(raw: Seq<char>) -> Seq<char> {
    let name = at_most(
        trimmed_of(raw.map_values(|c: char| bucket_char(c)), TrimSet::Underscore),
        80,
    );
    if name.len() == 0 {
        "anon"@
    } else {
        name
    }
}

fn last_component_of<'a>(s: &'a str) -> (r: &'a str)
    ensures
        r@ == last_component(s@),
{
    let chars: Vec<char> = chars_of(s);
    let mut start: usize = chars.len();
    assert(s@.take(start as int) =~= s@);
    assert(s@.subrange(start as int, s@.len() as int) =~= Seq::<char>::empty());
    assert(last_component(s@) =~= last_component(s@.take(start as int)) + s@.subrange(
        start as int,
        s@.len() as int,
    ));
    while start > 0 && !(chars[start - 1] == '/' || chars[start - 1] == '\\')
        invariant
            start <= chars.len(),
            chars@ == s@,
            last_component(s@) == last_component(s@.take(start as int)) + s@.subrange(
                start as int,
                s@.len() as int,
            ),
        decreases start,
    {
        proof {
            assert(s@.take(start as int).drop_last() =~= s@.take(start - 1));
            assert(last_component(s@.take(start - 1)).push(s@[start - 1]) + s@.subrange(
                start as int,
                s@.len() as int,
            ) =~= last_component(s@.take(start - 1)) + s@.subrange(start - 1, s@.len() as int));
        }
        start = start - 1;
    }
    assert(last_component(s@.take(start as int)) =~= Seq::<char>::empty());
    assert(last_component(s@) =~= s@.subrange(start as int, s@.len() as int));
    s.substring_char(start, chars.len())
}

fn clean(s: &str) -> (r: String)
    ensures
        r@ == cleaned(s@),
{
    let chars: Vec<char> = chars_of(s);
    let mut out = String::new();
    let mut i: usize = 0;
    while i < chars.len()
        invariant
            i <= chars.len(),
            chars@ == s@,
            out@ == cleaned(s@.take(i as int)),
        decreases chars.len() - i,
    {
        let c: char = chars[i];
        assert(s@.take(i + 1).drop_last() =~= s@.take(i as int));
        if !control(c) {
            let hostile: bool = c == '/' || c == '\\' || c == ':' || c == '*' || c == '?' || c
                == '"' || c == '<' || c == '>' || c == '|' || c == '\0';
            out.push(
                if hostile {
                    '_'
                } else {
                    c
                },
            );
        }
        i = i + 1;
    }
    assert(s@.take(i as int) =~= s@);
    out
}

fn first_chars<'a>(s: &'a str, n: usize) -> (r: &'a str)
    ensures
        r@ == at_most(s@, n as int),
{
    let chars: Vec<char> = chars_of(s);
    if chars.len() > n {
        let r: &'a str = s.substring_char(0, n);
        assert(r@ =~= s@.take(n as int));
        r
    } else {
        s
    }
}

/// The name under which an attachment is kept.
pub fn sanitize_upload_filename(raw: &str) -> (r: String)
    ensures
        r@ == upload_name(raw@),
{
    let base: &str = trim_of(last_component_of(raw), TrimSet::DotsAndWhitespace);
    let body: String = clean(base);
    let name: &str = first_chars(trim_of(body.as_str(), TrimSet::DotsAndWhitespace), 120);
    if name.is_empty() {
        "file".to_owned()
    } else {
        name.to_owned()
    }
}

fn bucket_text(raw: &str) -> (r: String)
    ensures
        r@ == raw@.map_values(|c: char| bucket_char(c)),
{
    let chars: Vec<char> = chars_of(raw);
    let ghost wanted = raw@.map_values(|c: char| bucket_char(c));
    let mut out = String::new();
    let mut i: usize = 0;
    while i < chars.len()
        invariant
            i <= chars.len(),
            chars@ == raw@,
            wanted == raw@.map_values(|c: char| bucket_char(c)),
            out@ == wanted.take(i as int),
        decreases chars.len() - i,
    {
        let c: char = chars[i];
        out.push(
            if ascii_alphanumeric(c) || c == '-' || c == '_' {
                c
            } else {
                '_'
            },
        );
        i = i + 1;
        assert(out@ =~= wanted.take(i as int));
    }
    assert(out@ =~= wanted);
    out
}

/// The directory for the uploads of a session.
pub fn sanitize_session_bucket(raw: &str) -> (r: String)
    ensures
        r@ == bucket_name(raw@),
{
    let body: String = bucket_text(raw);
    let name: &str = first_chars(trim_of(body.as_str(), TrimSet::Underscore), 80);
    if name.is_empty() {
        "anon".to_owned()
    } else {
        name.to_owned()
    }
}

proof fn lemma_cleaned_is_tame(s: Seq<char>)
    ensures
        forall|i: int|
            0 <= i < cleaned(s).len() ==> !is_hostile(#[trigger] cleaned(s)[i]) && !is_control(
                cleaned(s)[i],
            ),
    decreases s.len(),
{
    if s.len() > 0 {
        let rest = cleaned(s.drop_last());
        lemma_cleaned_is_tame(s.drop_last());
        assert forall|i: int| 0 <= i < cleaned(s).len() implies !is_hostile(
            #[trigger] cleaned(s)[i],
        ) && !is_control(cleaned(s)[i]) by {
            if i < rest.len() {
                assert(cleaned(s)[i] == rest[i]);
            } else {
                assert(cleaned(s)[i] == tamed(s.last()));
            }
        }
    }
}

/// A name for an attachment is a single component inside the directory that it is put
/// in: it is not empty, not too long, holds no separator, no other hostile and no
/// control character, and does not begin with a dot.
pub proof fn law_upload_name_is_safe(raw: Seq<char>)
    ensures
        0 < upload_name(raw).len() <= 120,
        forall|i: int|
            0 <= i < upload_name(raw).len() ==> !is_hostile(#[trigger] upload_name(raw)[i])
                && !is_control(upload_name(raw)[i]),
        upload_name(raw)[0] != '.',
{
    reveal_strlit("file");
    let base = trimmed_of(last_component(raw), TrimSet::DotsAndWhitespace);
    let clean = cleaned(base);
    lemma_cleaned_is_tame(base);
    crate::text::law_trim(clean, TrimSet::DotsAndWhitespace);
    let body = trimmed_of(clean, TrimSet::DotsAndWhitespace);
    let (a, b) = choose|a: int, b: int| 0 <= a <= b <= clean.len() && body == clean.subrange(a, b);
    assert forall|i: int| 0 <= i < body.len() implies !is_hostile(#[trigger] body[i])
        && !is_control(body[i]) by {
        assert(body[i] == clean[a + i]);
    }
}

/// A directory for the uploads of a session is a single component: it is not empty, not
/// too long and made of letters, digits, `-` and `_`.
pub proof fn law_bucket_name_is_safe(raw: Seq<char>)
    ensures
        0 < bucket_name(raw).len() <= 80,
        forall|i: int|
            0 <= i < bucket_name(raw).len() ==> {
                let c = #[trigger] bucket_name(raw)[i];
                is_ascii_alphanumeric(c) || c == '-' || c == '_'
            },
{
    reveal_strlit("anon");
    let mapped = raw.map_values(|c: char| bucket_char(c));
    crate::text::law_trim(mapped, TrimSet::Underscore);
    let body = trimmed_of(mapped, TrimSet::Underscore);
    let (a, b) = choose|a: int, b: int|
        0 <= a <= b <= mapped.len() && body == mapped.subrange(a, b);
    assert forall|i: int| 0 <= i < body.len() implies ({
        let c = #[trigger] body[i];
        is_ascii_alphanumeric(c) || c == '-' || c == '_'
    }) by {
        assert(body[i] == mapped[a + i]);
    }
}

proof fn lemma_component_of_tame(s: Seq<char>)
    requires
        forall|i: int| 0 <= i < s.len() ==> !is_separator(#[trigger] s[i]),
    ensures
        last_component(s) == s,
    decreases s.len(),
{
    if s.len() > 0 {
        let shorter = s.drop_last();
        assert forall|i: int| 0 <= i < shorter.len() implies !is_separator(
            #[trigger] shorter[i],
        ) by {
            assert(shorter[i] == s[i]);
        }
        lemma_component_of_tame(shorter);
        assert(!is_separator(s[s.len() - 1]));
        assert(shorter.push(s.last()) =~= s);
    }
}

proof fn lemma_cleaned_of_tame(s: Seq<char>)
    requires
        forall|i: int| 0 <= i < s.len() ==> !is_hostile(#[trigger] s[i]) && !is_control(s[i]),
    ensures
        cleaned(s) == s,
    decreases s.len(),
{
    if s.len() > 0 {
        let shorter = s.drop_last();
        assert forall|i: int| 0 <= i < shorter.len() implies !is_hostile(#[trigger] shorter[i])
            && !is_control(shorter[i]) by {
            assert(shorter[i] == s[i]);
        }
        lemma_cleaned_of_tame(shorter);
        assert(!is_hostile(s[s.len() - 1]));
        assert(shorter.push(s.last()) =~= s);
    }
}

/// A name that was made for an attachment is kept as it is when a name is made of it
/// again. One that was cut off right behind a dot or whitespace is left out: the second
/// time that is trimmed.
pub proof fn law_upload_name_is_kept(raw: Seq<char>)
    requires
        !TrimSet::DotsAndWhitespace.holds(upload_name(raw).last()),
    ensures
        upload_name(upload_name(raw)) == upload_name(raw),
{
    let name = upload_name(raw);
    law_upload_name_is_safe(raw);
    lemma_upload_name_starts(raw);
    assert forall|i: int| 0 <= i < name.len() implies !is_separator(#[trigger] name[i]) by {
        assert(!is_hostile(name[i]));
    }
    lemma_component_of_tame(name);
    lemma_cleaned_of_tame(name);
    assert(trimmed_of(name, TrimSet::DotsAndWhitespace) == name);
}

proof fn lemma_upload_name_starts(raw: Seq<char>)
    ensures
        upload_name(raw).len() > 0,
        !TrimSet::DotsAndWhitespace.holds(upload_name(raw)[0]),
{
    reveal_strlit("file");
    let base = trimmed_of(last_component(raw), TrimSet::DotsAndWhitespace);
    crate::text::law_trim(cleaned(base), TrimSet::DotsAndWhitespace);
}

/// A directory that was named for a session is kept as it is when it is named again. One
/// that was cut off right behind an underscore is left out: the second time that is
/// trimmed.
pub proof fn law_bucket_name_is_kept(raw: Seq<char>)
    requires
        bucket_name(raw).last() != '_',
    ensures
        bucket_name(bucket_name(raw)) == bucket_name(raw),
{
    reveal_strlit("anon");
    let name = bucket_name(raw);
    law_bucket_name_is_safe(raw);
    crate::text::law_trim(raw.map_values(|c: char| bucket_char(c)), TrimSet::Underscore);
    let mapped = name.map_values(|c: char| bucket_char(c));
    assert forall|i: int| 0 <= i < name.len() implies mapped[i] == name[i] by {
        let c = name[i];
    }
    assert(mapped =~= name);
    assert(trimmed_of(name, TrimSet::Underscore) == name);
}

// ---------------------------------------------------------------------------
// Receiving an upload
// ---------------------------------------------------------------------------

/// The character is a digit of a hexadecimal number in lower case.
pub open spec fn is_hex(c: char) -> bool {
    '0' <= c <= '9' || 'a' <= c <= 'f'
}

/// The text is a random id: 32 hexadecimal digits, with the version and the variant
/// that mark it as random.
pub open spec fn is_random_id(s: Seq<char>) -> bool {
    &&& s.len() == 32
    &&& forall|i: int| 0 <= i < s.len() ==> is_hex(#[trigger] s[i])
    &&& s[12] == '4'
    &&& s[16] == '8' || s[16] == '9' || s[16] == 'a' || s[16] == 'b'
}

/// `uuid::Uuid::new_v4`, written without hyphens: 32 hexadecimal digits in lower case,
/// of version 4 in the standard variant. Which ones is left to chance.
#[verifier::external_body]
fn random_id() -> (r: String)
    ensures
        is_random_id(r@),
{
    uuid::Uuid::new_v4().simple().to_string()
}

/// The name of the file in which an upload is staged.
pub fn staging_name() -> (r: String)
    ensures
        exists|id: Seq<char>| is_random_id(id) && r@ == #[trigger] (id + ".part"@),
{
    let id: String = random_id();
    let mut out: String = id.clone();
    out.append(".part");
    assert(out@ == id@ + ".part"@);
    out
}

/// A step of receiving an upload that the operating system or the client can fail.
#[derive(Clone, Copy, PartialEq, Eq, Structural, Debug)]
pub enum UploadStage {
    CreateRoot,
    CreateStagingDirectory,
    ReadField,
    ReadSessionId,
    CreateStagingFile,
    ReadChunk,
    WriteChunk,
    FlushStagingFile,
    CreateBucket,
    MoveIntoPlace,
    ResolvePath,
    ResolveRoot,
}

impl UploadStage {
    /// What is reported where the step fails.
    pub open spec fn message(self) -> Seq<char> {
        match self {
            UploadStage::CreateRoot => "Failed to create uploads root"@,
            UploadStage::CreateStagingDirectory => "Failed to create tmp directory"@,
            UploadStage::ReadField => "Invalid multipart upload"@,
            UploadStage::ReadSessionId => "Failed to read session_id field"@,
            UploadStage::CreateStagingFile => "Failed to create staging file"@,
            UploadStage::ReadChunk => "Failed to read upload chunk"@,
            UploadStage::WriteChunk => "Failed to write chunk"@,
            UploadStage::FlushStagingFile => "Failed to flush staging file"@,
            UploadStage::CreateBucket => "Failed to create uploads directory"@,
            UploadStage::MoveIntoPlace => "Failed to move staged upload into place"@,
            UploadStage::ResolvePath => "Failed to canonicalize upload path"@,
            UploadStage::ResolveRoot => "Failed to canonicalize uploads root"@,
        }
    }
}

/// The error for a step that failed for the reason `detail`.
pub fn upload_failure(stage: UploadStage, detail: String) -> (r: AppCommandError)
    ensures
        r@ == ErrorView::plain(AppErrorCode::IoError, stage.message()).with_detail(detail@),
{
    let message: &str = match stage {
        UploadStage::CreateRoot => "Failed to create uploads root",
        UploadStage::CreateStagingDirectory => "Failed to create tmp directory",
        UploadStage::ReadField => "Invalid multipart upload",
        UploadStage::ReadSessionId => "Failed to read session_id field",
        UploadStage::CreateStagingFile => "Failed to create staging file",
        UploadStage::ReadChunk => "Failed to read upload chunk",
        UploadStage::WriteChunk => "Failed to write chunk",
        UploadStage::FlushStagingFile => "Failed to flush staging file",
        UploadStage::CreateBucket => "Failed to create uploads directory",
        UploadStage::MoveIntoPlace => "Failed to move staged upload into place",
        UploadStage::ResolvePath => "Failed to canonicalize upload path",
        UploadStage::ResolveRoot => "Failed to canonicalize uploads root",
    };
    AppCommandError::io_error(message).with_detail(detail)
}

/// What to do with a field of the form.
#[derive(Clone, Copy, PartialEq, Eq, Structural, Debug)]
pub enum FieldPlan {
    /// Read the field's text and hand it to [`UploadIntake::session_field`].
    ReadSessionId,
    /// Write the field's chunks to the staging file, each after
    /// [`UploadIntake::accept_chunk`].
    StageFile,
    /// Read the field to its end and forget it.
    Drain,
}

/// What has been received of an upload.
#[derive(Debug)]
pub struct UploadIntake {
    bucket: Option<String>,
    raw_name: Option<String>,
    mime_type: Option<String>,
    written: u64,
    file_seen: bool,
}

/// The model of an [`UploadIntake`].
#[verifier::ext_equal]
pub struct IntakeView {
    pub bucket: Option<Seq<char>>,
    pub raw_name: Option<Seq<char>>,
    pub mime_type: Option<Seq<char>>,
    pub written: u64,
    pub file_seen: bool,
}

impl View for UploadIntake {
    type V = IntakeView;

    closed spec fn view(&self) -> IntakeView {
        IntakeView {
            bucket: opt_view(self.bucket),
            raw_name: opt_view(self.raw_name),
            mime_type: opt_view(self.mime_type),
            written: self.written,
            file_seen: self.file_seen,
        }
    }
}

/// Where an upload that is complete goes, and what is reported of it.
#[derive(Debug)]
pub struct UploadPlacement {
    /// The directory under the uploads directory.
    pub bucket: String,
    /// The name of the file in that directory.
    pub stored_name: String,
    /// The name to report.
    pub name: String,
    pub size: u64,
    pub mime_type: Option<String>,
}

/// What an upload is answered with.
#[derive(Debug)]
pub struct UploadAttachmentResult {
    pub path: String,
    pub name: String,
    pub size: u64,
    pub mime_type: Option<String>,
}

impl IntakeView {
    pub open spec fn empty() -> IntakeView {
        IntakeView {
            bucket: None,
            raw_name: None,
            mime_type: None,
            written: 0,
            file_seen: false,
        }
    }

    /// After a session id: a blank one leaves the bucket as it is.
    pub open spec fn with_session(self, value: Seq<char>) -> IntakeView {
        if trimmed(value).len() > 0 {
            IntakeView { bucket: Some(bucket_name(trimmed(value))), ..self }
        } else {
            self
        }
    }

    /// After the head of the file's field.
    pub open spec fn with_file(
        self,
        file_name: Option<Seq<char>>,
        content_type: Option<Seq<char>>,
    ) -> IntakeView {
        IntakeView {
            raw_name: Some(
                match file_name {
                    Some(name) => name,
                    None => "file"@,
                },
            ),
            mime_type: content_type,
            file_seen: true,
            ..self
        }
    }

    /// After another chunk of the file, if there is room for it.
    pub open spec fn with_chunk(self, len: u64) -> Option<IntakeView> {
        if self.written + len <= UPLOAD_MAX_BYTES {
            Some(IntakeView { written: (self.written + len) as u64, ..self })
        } else {
            None
        }
    }

    /// After some more chunks of the file, if there is room for all of them.
    pub open spec fn with_chunks(self, lens: Seq<u64>) -> Option<IntakeView>
        decreases lens.len(),
    {
        if lens.len() == 0 {
            Some(self)
        } else {
            match self.with_chunks(lens.drop_last()) {
                Some(before) => before.with_chunk(lens.last()),
                None => None,
            }
        }
    }

    /// The name under which the attachment is kept.
    pub open spec fn safe_name(self) -> Seq<char> {
        upload_name(
            match self.raw_name {
                Some(name) => name,
                None => "file"@,
            },
        )
    }

    /// The directory for the attachment.
    pub open spec fn target_bucket(self) -> Seq<char> {
        match self.bucket {
            Some(bucket) => bucket,
            None => "anon"@,
        }
    }
}

/// What to do with a field called `name`.
pub open spec fn field_plan(name: Seq<char>) -> FieldPlan {
    if name == "session_id"@ || name == "sessionId"@ {
        FieldPlan::ReadSessionId
    } else if name == "file"@ {
        FieldPlan::StageFile
    } else {
        FieldPlan::Drain
    }
}

/// The error for an attachment of at least `size` bytes.
pub open spec fn too_large(size: u64) -> ErrorView {
    ErrorView::plain(AppErrorCode::IoError, "Upload exceeds the maximum allowed size"@).with_detail(
        "size="@ + decimal(size as nat) + " limit="@ + decimal(UPLOAD_MAX_BYTES as nat),
    ).with_i18n(
        I18nKey::UploadTooLarge,
        seq![("limit"@, decimal(UPLOAD_MAX_BYTES as nat)), ("size"@, decimal(size as nat))],
    )
}

fn owned(value: Option<&str>) -> (r: Option<String>)
    ensures
        opt_view(r) == crate::json::opt_str(value),
{
    match value {
        Some(s) => Some(s.to_owned()),
        None => None,
    }
}

impl UploadIntake {
    pub fn new() -> (r: UploadIntake)
        ensures
            r@ == IntakeView::empty(),
    {
        UploadIntake {
            bucket: None,
            raw_name: None,
            mime_type: None,
            written: 0,
            file_seen: false,
        }
    }

    /// Takes the head of a field. A form has room for one file.
    pub fn begin_field(
        &mut self,
        name: &str,
        file_name: Option<&str>,
        content_type: Option<&str>,
    ) -> (r: Result<FieldPlan, AppCommandError>)
        ensures
            match r {
                Ok(plan) => plan == field_plan(name@) && !(plan is StageFile
                    && old(self)@.file_seen) && final(self)@ == if plan is StageFile {
                    old(self)@.with_file(
                        crate::json::opt_str(file_name),
                        crate::json::opt_str(content_type),
                    )
                } else {
                    old(self)@
                },
                Err(e) => field_plan(name@) is StageFile && old(self)@.file_seen && e@
                    == ErrorView::plain(
                    AppErrorCode::IoError,
                    "Multiple `file` fields are not supported per request"@,
                ) && final(self)@ == old(self)@,
            },
    {
        if same_text(name, "session_id") || same_text(name, "sessionId") {
            return Ok(FieldPlan::ReadSessionId);
        }
        if !same_text(name, "file") {
            return Ok(FieldPlan::Drain);
        }
        if self.file_seen {
            return Err(
                AppCommandError::io_error("Multiple `file` fields are not supported per request"),
            );
        }
        self.file_seen = true;
        self.raw_name = Some(
            match file_name {
                Some(s) => s.to_owned(),
                None => "file".to_owned(),
            },
        );
        self.mime_type = owned(content_type);
        Ok(FieldPlan::StageFile)
    }

    /// Takes the text of a session id.
    pub fn session_field(&mut self, value: &str)
        ensures
            final(self)@ == old(self)@.with_session(value@),
    {
        let body: &str = trim(value);
        if !body.is_empty() {
            self.bucket = Some(sanitize_session_bucket(body));
        }
    }

    /// Takes the size of the file's next chunk, before the chunk is written.
    pub fn accept_chunk(&mut self, len: u64) -> (r: Result<(), AppCommandError>)
        ensures
            match r {
                Ok(_) => old(self)@.with_chunk(len) == Some(final(self)@),
                Err(e) => old(self)@.with_chunk(len) is None && e@ == too_large(
                    saturated(old(self)@.written + len) as u64,
                ) && final(self)@ == old(self)@,
            },
    {
        let total: u64 = self.written.saturating_add(len);
        if total > UPLOAD_MAX_BYTES {
            let message: String = amounts("size=", total, " limit=", UPLOAD_MAX_BYTES);
            return Err(
                AppCommandError::io_error("Upload exceeds the maximum allowed size").with_detail(
                    message,
                ).with_i18n(
                    I18nKey::UploadTooLarge,
                    named_pair(("limit", UPLOAD_MAX_BYTES), ("size", total)),
                ),
            );
        }
        self.written = total;
        Ok(())
    }

    /// Closes the form: where the attachment goes.
    pub fn finish(self) -> (r: Result<UploadPlacement, AppCommandError>)
        ensures
            match r {
                Ok(p) => {
                    &&& self@.file_seen && self@.written > 0
                    &&& p.bucket@ == self@.target_bucket()
                    &&& p.name@ == self@.safe_name()
                    &&& p.size == self@.written
                    &&& opt_view(p.mime_type) == self@.mime_type
                    &&& exists|id: Seq<char>|
                        is_random_id(id) && p.stored_name@ == #[trigger] (id + "-"@) + p.name@
                },
                Err(e) => {
                    ||| !self@.file_seen && e@ == ErrorView::plain(
                        AppErrorCode::IoError,
                        "Missing `file` field in multipart upload"@,
                    )
                    ||| self@.file_seen && self@.written == 0 && e@ == ErrorView::plain(
                        AppErrorCode::IoError,
                        "Uploaded file is empty"@,
                    )
                },
            },
    {
        if !self.file_seen {
            return Err(AppCommandError::io_error("Missing `file` field in multipart upload"));
        }
        if self.written == 0 {
            return Err(AppCommandError::io_error("Uploaded file is empty"));
        }
        let name: String = match &self.raw_name {
            Some(raw) => sanitize_upload_filename(raw.as_str()),
            None => sanitize_upload_filename("file"),
        };
        let id: String = random_id();
        let mut stored_name: String = id.clone();
        stored_name.append("-");
        stored_name.append(name.as_str());
        assert(stored_name@ == (id@ + "-"@) + name@);
        let size: u64 = self.written;
        let bucket: String = match self.bucket {
            Some(bucket) => bucket,
            None => "anon".to_owned(),
        };
        Ok(UploadPlacement { bucket, stored_name, name, size, mime_type: self.mime_type })
    }
}

impl UploadPlacement {
    /// What the upload is answered with once it stands at `path`.
    pub fn result(self, path: String) -> (r: UploadAttachmentResult)
        ensures
            r.path@ == path@,
            r.name@ == self.name@,
            r.size == self.size,
            opt_view(r.mime_type) == opt_view(self.mime_type),
    {
        UploadAttachmentResult {
            path,
            name: self.name,
            size: self.size,
            mime_type: self.mime_type,
        }
    }
}

/// The file of an upload is a single component too: a random id, a hyphen and a safe
/// name hold no separator.
pub proof fn law_stored_name_is_safe(id: Seq<char>, raw: Seq<char>)
    requires
        is_random_id(id),
    ensures
        forall|i: int|
            0 <= i < ((id + "-"@) + upload_name(raw)).len() ==> !is_hostile(
                #[trigger] ((id + "-"@) + upload_name(raw))[i],
            ),
        ((id + "-"@) + upload_name(raw))[0] != '.',
{
    reveal_strlit("-");
    law_upload_name_is_safe(raw);
    let name = (id + "-"@) + upload_name(raw);
    assert forall|i: int| 0 <= i < name.len() implies !is_hostile(#[trigger] name[i]) by {
        if i < 32 {
            assert(name[i] == id[i]);
        } else if i > 32 {
            assert(name[i] == upload_name(raw)[i - 33]);
        }
    }
    assert(name[0] == id[0]);
}

/// The bytes of some chunks.
pub open spec fn chunk_bytes(lens: Seq<u64>) -> int
    decreases lens.len(),
{
    if lens.len() == 0 {
        0
    } else {
        chunk_bytes(lens.drop_last()) + lens.last()
    }
}

proof fn lemma_chunk_bytes_not_negative(lens: Seq<u64>)
    ensures
        chunk_bytes(lens) >= 0,
    decreases lens.len(),
{
    if lens.len() > 0 {
        lemma_chunk_bytes_not_negative(lens.drop_last());
    }
}

/// However a file is cut into chunks, it is accepted if and only if it is no larger than
/// the largest attachment, and then what is written comes to its size.
pub proof fn law_intake_never_exceeds_limit(start: IntakeView, lens: Seq<u64>)
    requires
        start.written <= UPLOAD_MAX_BYTES,
    ensures
        start.with_chunks(lens) is Some <==> start.written + chunk_bytes(lens) <= UPLOAD_MAX_BYTES,
        start.with_chunks(lens) matches Some(end) ==> end == (IntakeView {
            written: (start.written + chunk_bytes(lens)) as u64,
            ..start
        }),
    decreases lens.len(),
{
    lemma_chunk_bytes_not_negative(lens);
    if lens.len() > 0 {
        lemma_chunk_bytes_not_negative(lens.drop_last());
        law_intake_never_exceeds_limit(start, lens.drop_last());
    }
}

// ---------------------------------------------------------------------------
// The directory that uploads are kept in
// ---------------------------------------------------------------------------

/// The components of `root` begin those of `path`.
pub open spec fn inside(path: Seq<Vec<u8>>, root: Seq<Vec<u8>>) -> bool {
    root.len() <= path.len() && forall|i: int|
        0 <= i < root.len() ==> (#[trigger] root[i])@ == path[i]@
}

/// Checks that a resolved path lies inside the resolved uploads directory. Both are
/// given as their components, and `shown` is the path as it is reported.
pub fn ensure_path_inside(path: &Vec<Vec<u8>>, root: &Vec<Vec<u8>>, shown: String) -> (r: Result<
    (),
    AppCommandError,
>)
    ensures
        match r {
            Ok(_) => inside(path@, root@),
            Err(e) => !inside(path@, root@) && e@ == ErrorView::plain(
                AppErrorCode::IoError,
                "Resolved upload path escapes uploads root"@,
            ).with_detail(shown@),
        },
{
    let mut i: usize = 0;
    let mut within: bool = root.len() <= path.len();
    while within && i < root.len()
        invariant
            i <= root@.len(),
            within ==> root@.len() <= path@.len() && forall|k: int|
                0 <= k < i ==> (#[trigger] root@[k])@ == path@[k]@,
            !within ==> !inside(path@, root@),
        decreases root.len() - i,
    {
        if !same_bytes(root[i].as_slice(), path[i].as_slice()) {
            within = false;
        }
        i = i + 1;
    }
    if within {
        Ok(())
    } else {
        Err(
            AppCommandError::io_error("Resolved upload path escapes uploads root").with_detail(
                shown,
            ),
        )
    }
}

proof fn lemma_component_behind(dir: Seq<char>, rest: Seq<char>)
    requires
        dir.len() == 0 || is_separator(dir.last()),
        forall|i: int| 0 <= i < rest.len() ==> !is_separator(#[trigger] rest[i]),
    ensures
        last_component(dir + rest) == rest,
    decreases rest.len(),
{
    if rest.len() == 0 {
        assert(dir + rest =~= dir);
    } else {
        let shorter = rest.drop_last();
        assert forall|i: int| 0 <= i < shorter.len() implies !is_separator(
            #[trigger] shorter[i],
        ) by {
            assert(shorter[i] == rest[i]);
        }
        lemma_component_behind(dir, shorter);
        assert((dir + rest).drop_last() =~= dir + shorter);
        assert((dir + rest).last() == rest[rest.len() - 1]);
        assert(shorter.push(rest.last()) =~= rest);
    }
}

proof fn lemma_cleaned_of_printable(s: Seq<char>)
    requires
        forall|i: int| 0 <= i < s.len() ==> !is_control(#[trigger] s[i]),
    ensures
        cleaned(s) == Seq::new(s.len(), |i: int| tamed(s[i])),
    decreases s.len(),
{
    if s.len() > 0 {
        let shorter = s.drop_last();
        assert forall|i: int| 0 <= i < shorter.len() implies !is_control(#[trigger] shorter[i]) by {
            assert(shorter[i] == s[i]);
        }
        lemma_cleaned_of_printable(shorter);
        assert(!is_control(s[s.len() - 1]));
    }
    assert(cleaned(s) =~= Seq::new(s.len(), |i: int| tamed(s[i])));
}

/// What becomes of the name of an uploaded file. The directories before the last slash or
/// backslash go, and so do dots and whitespace at its ends. Of what is left each of the
/// characters `:*?"<>|` becomes an underscore, every other stays what it is, and the first
/// 120 characters are kept.
pub proof fn law_upload_name_of_a_path(
    dir: Seq<char>,
    front: Seq<char>,
    body: Seq<char>,
    back: Seq<char>,
)
    requires
        dir.len() == 0 || dir.last() == '/' || dir.last() == '\\',
        forall|i: int|
            0 <= i < front.len() ==> #[trigger] front[i] == '.' || crate::text::is_whitespace(
                front[i],
            ),
        forall|i: int|
            0 <= i < back.len() ==> #[trigger] back[i] == '.' || crate::text::is_whitespace(
                back[i],
            ),
        body.len() > 0,
        body[0] != '.' && !crate::text::is_whitespace(body[0]),
        body.last() != '.' && !crate::text::is_whitespace(body.last()),
        forall|i: int|
            0 <= i < body.len() ==> #[trigger] body[i] != '/' && body[i] != '\\' && !is_control(
                body[i],
            ),
    ensures
        upload_name(dir + front + body + back).len() == if body.len() > 120 {
            120
        } else {
            body.len()
        },
        forall|i: int|
            #![trigger upload_name(dir + front + body + back)[i]]
            0 <= i < upload_name(dir + front + body + back).len() ==> upload_name(
                dir + front + body + back,
            )[i] == if body[i] == ':' || body[i] == '*' || body[i] == '?' || body[i] == '"'
                || body[i] == '<' || body[i] == '>' || body[i] == '|' {
                '_'
            } else {
                body[i]
            },
{
    let set = TrimSet::DotsAndWhitespace;
    let rest = front + body + back;
    assert(dir + front + body + back =~= dir + rest);
    assert forall|i: int| 0 <= i < rest.len() implies !is_separator(#[trigger] rest[i]) by {
        if i < front.len() {
            assert(rest[i] == front[i]);
        } else if i < front.len() + body.len() {
            assert(rest[i] == body[i - front.len()]);
        } else {
            assert(rest[i] == back[i - front.len() - body.len()]);
        }
    }
    lemma_component_behind(dir, rest);
    crate::text::law_trim_takes_off_the_set_alone(front, body, back, set);
    lemma_cleaned_of_printable(body);
    let name = cleaned(body);
    assert(name[0] == tamed(body[0]));
    assert(name[name.len() - 1] == tamed(body[body.len() - 1]));
    crate::text::law_trim_takes_off_the_set_alone(Seq::empty(), name, Seq::empty(), set);
    assert(Seq::<char>::empty() + name + Seq::<char>::empty() =~= name);
}

/// A name with nothing wrong with it is kept: one of at most 120 characters, none of them
/// hostile or a control character, that neither begins nor ends with a dot or whitespace,
/// in whatever script it is written.
pub proof fn law_harmless_name_is_kept(raw: Seq<char>)
    requires
        0 < raw.len() <= 120,
        forall|i: int|
            0 <= i < raw.len() ==> {
                let c = #[trigger] raw[i];
                &&& c != '/' && c != '\\' && c != ':' && c != '*' && c != '?' && c != '"' && c
                    != '<' && c != '>' && c != '|'
                &&& !is_control(c)
            },
        raw[0] != '.' && !crate::text::is_whitespace(raw[0]),
        raw.last() != '.' && !crate::text::is_whitespace(raw.last()),
    ensures
        upload_name(raw) == raw,
{
    let none = Seq::<char>::empty();
    assert(none + none + raw + none =~= raw);
    law_upload_name_of_a_path(none, none, raw, none);
    assert(upload_name(raw) =~= raw);
}

proof fn lemma_cleaned_parts(a: Seq<char>, b: Seq<char>)
    ensures
        cleaned(a + b) == cleaned(a) + cleaned(b),
    decreases b.len(),
{
    if b.len() == 0 {
        assert(a + b =~= a);
        assert(cleaned(a) + cleaned(b) =~= cleaned(a));
    } else {
        assert((a + b).drop_last() =~= a + b.drop_last());
        assert((a + b).last() == b.last());
        lemma_cleaned_parts(a, b.drop_last());
        assert(cleaned(a + b) =~= cleaned(a) + cleaned(b));
    }
}

proof fn lemma_cleaned_blank(s: Seq<char>)
    requires
        forall|i: int| 0 <= i < s.len() ==> TrimSet::DotsAndWhitespace.holds(#[trigger] s[i]),
    ensures
        forall|i: int|
            0 <= i < cleaned(s).len() ==> TrimSet::DotsAndWhitespace.holds(
                #[trigger] cleaned(s)[i],
            ),
    decreases s.len(),
{
    if s.len() > 0 {
        let shorter = s.drop_last();
        assert forall|i: int| 0 <= i < shorter.len() implies TrimSet::DotsAndWhitespace.holds(
            #[trigger] shorter[i],
        ) by {
            assert(shorter[i] == s[i]);
        }
        lemma_cleaned_blank(shorter);
        assert(TrimSet::DotsAndWhitespace.holds(s[s.len() - 1]));
        assert(tamed(s.last()) == s.last());
        lemma_blank_before(s);
    }
}

proof fn lemma_trimmed_once(s: Seq<char>)
    ensures
        trimmed_of(
            cleaned(trimmed_of(s, TrimSet::DotsAndWhitespace)),
            TrimSet::DotsAndWhitespace,
        ) == trimmed_of(cleaned(s), TrimSet::DotsAndWhitespace),
{
    let set = TrimSet::DotsAndWhitespace;
    let (front, back) = crate::text::lemma_trim_parts(s, set);
    let body = trimmed_of(s, set);
    lemma_cleaned_parts(front + body, back);
    lemma_cleaned_parts(front, body);
    lemma_cleaned_blank(front);
    lemma_cleaned_blank(back);
    crate::text::law_trim_ignores_what_it_takes_off(
        cleaned(front),
        cleaned(body),
        cleaned(back),
        set,
    );
}

proof fn lemma_component_parts(a: Seq<char>, b: Seq<char>)
    ensures
        (forall|i: int| 0 <= i < b.len() ==> !is_separator(#[trigger] b[i])) ==> last_component(
            a + b,
        ) == last_component(a) + b,
        (exists|i: int| 0 <= i < b.len() && is_separator(#[trigger] b[i])) ==> last_component(
            a + b,
        ) == last_component(b),
    decreases b.len(),
{
    if b.len() == 0 {
        assert(a + b =~= a);
        assert(last_component(a) + b =~= last_component(a));
    } else {
        let shorter = b.drop_last();
        assert((a + b).drop_last() =~= a + shorter);
        assert((a + b).last() == b.last());
        lemma_component_parts(a, shorter);
        if !is_separator(b.last()) {
            if forall|i: int| 0 <= i < b.len() ==> !is_separator(#[trigger] b[i]) {
                assert forall|i: int| 0 <= i < shorter.len() implies !is_separator(
                    #[trigger] shorter[i],
                ) by {
                    assert(shorter[i] == b[i]);
                }
                assert(last_component(a + b) =~= last_component(a) + b);
            } else {
                let i = choose|i: int| 0 <= i < b.len() && is_separator(#[trigger] b[i]);
                assert(i < shorter.len());
                assert(is_separator(shorter[i]));
            }
        } else {
            assert(is_separator(b[b.len() - 1]));
        }
    }
}

/// Control characters leave no trace in the name of an upload, wherever they stand.
pub proof fn law_control_characters_leave_no_trace(a: Seq<char>, c: char, b: Seq<char>)
    requires
        (c as u32) < 32 || 127 <= (c as u32) <= 159,
    ensures
        upload_name(a + seq![c] + b) == upload_name(a + b),
{
    let with = last_component(a + seq![c] + b);
    let without = last_component(a + b);
    lemma_component_parts(a, b);
    lemma_component_parts(a + seq![c], b);
    lemma_component_parts(a, seq![c]);
    let single = seq![c];
    assert(single.drop_last() =~= Seq::<char>::empty());
    assert(is_control(single.last()));
    assert(cleaned(single.drop_last()).len() == 0);
    assert(cleaned(single) =~= Seq::<char>::empty());
    if forall|i: int| 0 <= i < b.len() ==> !is_separator(#[trigger] b[i]) {
        let before = last_component(a);
        assert(with == before + seq![c] + b);
        lemma_cleaned_parts(before + seq![c], b);
        lemma_cleaned_parts(before, seq![c]);
        lemma_cleaned_parts(before, b);
        assert(cleaned(with) =~= cleaned(without));
    }
    lemma_trimmed_once(with);
    lemma_trimmed_once(without);
}

/// The directories before a slash or a backslash leave no trace in the name of an upload.
pub proof fn law_directories_leave_no_trace(dir: Seq<char>, separator: char, rest: Seq<char>)
    requires
        separator == '/' || separator == '\\',
    ensures
        upload_name(dir + seq![separator] + rest) == upload_name(rest),
{
    let head = dir + seq![separator];
    lemma_component_parts(head, rest);
    assert(head.last() == separator);
    if forall|i: int| 0 <= i < rest.len() ==> !is_separator(#[trigger] rest[i]) {
        lemma_component_behind(head, rest);
        lemma_component_of_tame(rest);
    }
}

proof fn lemma_cleaned_has(s: Seq<char>, i: int)
    requires
        0 <= i < s.len(),
        !is_control(s[i]),
    ensures
        cleaned(s).contains(tamed(s[i])),
    decreases s.len(),
{
    let shorter = s.drop_last();
    if i == s.len() - 1 {
        assert(cleaned(s).last() == tamed(s[i]));
    } else {
        assert(shorter[i] == s[i]);
        lemma_cleaned_has(shorter, i);
        let k = choose|k: int| 0 <= k < cleaned(shorter).len() && cleaned(shorter)[k] == tamed(
            s[i],
        );
        assert(cleaned(s)[k] == tamed(s[i]));
    }
}

/// An upload is called `file` for want of a name only where nothing is left of the one it
/// came with: every character behind its last slash or backslash is a dot, whitespace or a
/// control character. Otherwise it is called so only if that is its name, once it is
/// cleaned and trimmed. Where nothing is left it is always called so.
pub proof fn law_nameless_upload_is_called_file(raw: Seq<char>)
    ensures
        ({
            let own = last_component(raw);
            let blank = forall|i: int|
                0 <= i < own.len() ==> #[trigger] own[i] == '.' || crate::text::is_whitespace(
                    own[i],
                ) || is_control(own[i]);
            &&& blank ==> upload_name(raw) == "file"@
            &&& !blank && upload_name(raw) == "file"@ ==> exists|front: Seq<char>, back: Seq<char>|
                cleaned(own) == #[trigger] (front + "file"@ + back) && (forall|i: int|
                    0 <= i < front.len() ==> #[trigger] front[i] == '.'
                        || crate::text::is_whitespace(front[i])) && (forall|i: int|
                    0 <= i < back.len() ==> #[trigger] back[i] == '.'
                        || crate::text::is_whitespace(back[i]))
        }),
{
    let set = TrimSet::DotsAndWhitespace;
    let own = last_component(raw);
    reveal_strlit("file");
    lemma_trimmed_once(own);
    let left = trimmed_of(cleaned(own), set);
    let (front, back) = crate::text::lemma_trim_parts(cleaned(own), set);
    let blank = forall|i: int|
        0 <= i < own.len() ==> #[trigger] own[i] == '.' || crate::text::is_whitespace(own[i])
            || is_control(own[i]);
    if blank {
        lemma_cleaned_of_blank(own);
        let none = Seq::<char>::empty();
        crate::text::law_trim_ignores_what_it_takes_off(cleaned(own), none, none, set);
        assert(cleaned(own) + none + none =~= cleaned(own));
    } else {
        let i = choose|i: int|
            0 <= i < own.len() && !(#[trigger] own[i] == '.' || crate::text::is_whitespace(own[i])
                || is_control(own[i]));
        lemma_cleaned_has(own, i);
        let k = choose|k: int| 0 <= k < cleaned(own).len() && cleaned(own)[k] == tamed(own[i]);
        if left.len() == 0 {
            if k < front.len() {
                assert(cleaned(own)[k] == front[k]);
            } else {
                assert(cleaned(own)[k] == back[k - front.len()]);
            }
        }
        if upload_name(raw) == "file"@ {
            assert(left == "file"@);
            assert(cleaned(own) == front + "file"@ + back);
        }
    }
}

proof fn lemma_cleaned_of_blank(s: Seq<char>)
    requires
        forall|i: int|
            0 <= i < s.len() ==> #[trigger] s[i] == '.' || crate::text::is_whitespace(s[i])
                || is_control(s[i]),
    ensures
        forall|i: int|
            0 <= i < cleaned(s).len() ==> TrimSet::DotsAndWhitespace.holds(
                #[trigger] cleaned(s)[i],
            ),
    decreases s.len(),
{
    if s.len() > 0 {
        let shorter = s.drop_last();
        assert forall|i: int| 0 <= i < shorter.len() implies #[trigger] shorter[i] == '.'
            || crate::text::is_whitespace(shorter[i]) || is_control(shorter[i]) by {
            assert(shorter[i] == s[i]);
        }
        lemma_cleaned_of_blank(shorter);
        assert(s[s.len() - 1] == s.last());
        if !is_control(s.last()) {
            assert(tamed(s.last()) == s.last());
        }
        lemma_blank_before(s);
    }
}

proof fn lemma_blank_before(s: Seq<char>)
    requires
        s.len() > 0,
        forall|i: int|
            0 <= i < cleaned(s.drop_last()).len() ==> TrimSet::DotsAndWhitespace.holds(
                #[trigger] cleaned(s.drop_last())[i],
            ),
        !is_control(s.last()) ==> TrimSet::DotsAndWhitespace.holds(tamed(s.last())),
    ensures
        forall|i: int|
            0 <= i < cleaned(s).len() ==> TrimSet::DotsAndWhitespace.holds(
                #[trigger] cleaned(s)[i],
            ),
{
    let before = cleaned(s.drop_last());
    assert forall|i: int| 0 <= i < cleaned(s).len() implies TrimSet::DotsAndWhitespace.holds(
        #[trigger] cleaned(s)[i],
    ) by {
        if i < before.len() {
            assert(cleaned(s)[i] == before[i]);
        }
    }
}

/// What becomes of the name of a session's directory. Letters, digits, hyphens and
/// underscores stay and every other character becomes an underscore; underscores at the
/// ends go, and the first 80 characters are kept. Where nothing is left it is `anon`.
pub proof fn law_bucket_name_of_a_session(front: Seq<char>, body: Seq<char>, back: Seq<char>)
    requires
        forall|i: int| 0 <= i < front.len() ==> bucket_char(#[trigger] front[i]) == '_',
        forall|i: int| 0 <= i < back.len() ==> bucket_char(#[trigger] back[i]) == '_',
        body.len() > 0 ==> bucket_char(body[0]) != '_' && bucket_char(body.last()) != '_',
    ensures
        body.len() == 0 ==> bucket_name(front + body + back) == "anon"@,
        body.len() > 0 ==> bucket_name(front + body + back).len() == if body.len() > 80 {
            80
        } else {
            body.len()
        },
        body.len() > 0 ==> forall|i: int|
            #![trigger bucket_name(front + body + back)[i]]
            0 <= i < bucket_name(front + body + back).len() ==> bucket_name(front + body + back)[i]
                == bucket_char(body[i]),
{
    let raw = front + body + back;
    let f = |c: char| bucket_char(c);
    let (a, b, c) = (front.map_values(f), body.map_values(f), back.map_values(f));
    assert(raw.map_values(f) =~= a + b + c);
    assert forall|i: int| 0 <= i < a.len() implies TrimSet::Underscore.holds(#[trigger] a[i]) by {
        assert(a[i] == bucket_char(front[i]));
    }
    assert forall|i: int| 0 <= i < c.len() implies TrimSet::Underscore.holds(#[trigger] c[i]) by {
        assert(c[i] == bucket_char(back[i]));
    }
    crate::text::law_trim_takes_off_the_set_alone(a, b, c, TrimSet::Underscore);
    assert(raw.map_values(|c: char| bucket_char(c)) =~= raw.map_values(f));
}

/// Which characters stay in the name of a session's directory, by number.
pub proof fn law_bucket_characters(c: char)
    ensures
        48 <= (c as u32) <= 57 || 65 <= (c as u32) <= 90 || 97 <= (c as u32) <= 122 || c == '-'
            || c == '_' ==> bucket_char(c) == c,
        !(48 <= (c as u32) <= 57 || 65 <= (c as u32) <= 90 || 97 <= (c as u32) <= 122 || c == '-'
            || c == '_') ==> bucket_char(c) == '_',
{
}

/// The cap is what the setting says, whitespace around it aside: a number of bytes, none
/// for zero or an empty setting, and none, with the text as evidence, for what is no
/// number.
pub proof fn law_quota_setting(front: Seq<char>, body: Seq<char>, back: Seq<char>)
    requires
        forall|i: int| 0 <= i < front.len() ==> crate::text::is_whitespace(#[trigger] front[i]),
        forall|i: int| 0 <= i < back.len() ==> crate::text::is_whitespace(#[trigger] back[i]),
        body.len() > 0 ==> !crate::text::is_whitespace(body[0]) && !crate::text::is_whitespace(
            body[body.len() - 1],
        ),
    ensures
        quota_of(None) == QuotaView::Unset,
        body.len() == 0 ==> quota_of(Some(front + body + back)) == QuotaView::Unset,
        body.len() > 0 ==> quota_of(Some(front + body + back)) == match u64_of_text(body) {
            Some(n) => if n == 0 {
                QuotaView::Disabled
            } else {
                QuotaView::Enabled(n)
            },
            None => QuotaView::Invalid(body),
        },
{
    crate::text::law_trim_takes_off_the_set_alone(front, body, back, TrimSet::Whitespace);
}

/// A written number of bytes is the cap.
pub proof fn law_written_quota_is_the_cap(n: u64)
    ensures
        n > 0 ==> quota_of(Some(decimal(n as nat))) == QuotaView::Enabled(n),
        n == 0 ==> quota_of(Some(decimal(n as nat))) == QuotaView::Disabled,
{
    let text = decimal(n as nat);
    let none = Seq::<char>::empty();
    crate::number::law_parse_of_decimal(n);
    crate::number::law_decimal_denotes(n as nat);
    assert(none + text + none =~= text);
    assert('0' <= text[0] <= '9');
    assert('0' <= text[text.len() - 1] <= '9');
    law_quota_setting(none, text, none);
}

/// The two words are the same but for capitals in the first.
pub open spec fn is_word(text: Seq<char>, word: Seq<char>) -> bool {
    text.len() == word.len() && forall|i: int|
        0 <= i < text.len() ==> #[trigger] text[i] == word[i] || ('A' <= text[i] <= 'Z' && word[i]
            == (text[i] as u32 + 32) as char)
}

proof fn lemma_lowered_word(text: Seq<char>, word: Seq<char>)
    requires
        forall|i: int| 0 <= i < word.len() ==> !('A' <= #[trigger] word[i] <= 'Z'),
    ensures
        ascii_lowered(text) == word <==> is_word(text, word),
{
    let lowered = ascii_lowered(text);
    if lowered == word {
        assert forall|i: int| 0 <= i < text.len() implies #[trigger] text[i] == word[i] || ('A'
            <= text[i] <= 'Z' && word[i] == (text[i] as u32 + 32) as char) by {
            assert(lowered[i] == ascii_lower(text[i]));
        }
    }
    if is_word(text, word) {
        assert forall|i: int| 0 <= i < text.len() implies lowered[i] == word[i] by {
            assert(lowered[i] == ascii_lower(text[i]));
            assert(!('A' <= word[i] <= 'Z'));
        }
        assert(lowered =~= word);
    }
}

/// The strict mode is on for `1`, `true`, `yes` and `on`, in whatever case and with
/// whitespace around it, and off for everything else.
pub proof fn law_strict_mode_words(front: Seq<char>, body: Seq<char>, back: Seq<char>)
    requires
        forall|i: int| 0 <= i < front.len() ==> crate::text::is_whitespace(#[trigger] front[i]),
        forall|i: int| 0 <= i < back.len() ==> crate::text::is_whitespace(#[trigger] back[i]),
        body.len() > 0 ==> !crate::text::is_whitespace(body[0]) && !crate::text::is_whitespace(
            body[body.len() - 1],
        ),
    ensures
        !truthy(None),
        truthy(Some(front + body + back)) <==> is_word(body, "1"@) || is_word(body, "true"@)
            || is_word(body, "yes"@) || is_word(body, "on"@),
{
    crate::text::law_trim_takes_off_the_set_alone(front, body, back, TrimSet::Whitespace);
    reveal_strlit("1");
    reveal_strlit("true");
    reveal_strlit("yes");
    reveal_strlit("on");
    lemma_lowered_word(body, "1"@);
    lemma_lowered_word(body, "true"@);
    lemma_lowered_word(body, "yes"@);
    lemma_lowered_word(body, "on"@);
}

/// What is reported of the cap at startup; only a text that is no number stops it, and
/// only in the strict mode.
pub proof fn law_quota_notices(n: u64, text: Seq<char>, strict: bool)
    ensures
        notice_of(QuotaView::Unset, strict) == NoticeView::NotSet,
        notice_of(QuotaView::Disabled, strict) == NoticeView::SwitchedOff,
        notice_of(QuotaView::Enabled(n), strict) == NoticeView::Cap(n),
        notice_of(QuotaView::Invalid(text), true) == NoticeView::Fatal(text),
        notice_of(QuotaView::Invalid(text), false) == NoticeView::Warn(text),
{
}

/// A reservation is granted if and only if the bytes in use, those in flight and those
/// asked for come to the cap at most; the sum is counted as the largest number there is
/// where it is larger. It is also refused where the bytes in flight would not fit their
/// counter.
pub proof fn law_reservation_is_granted_up_to_the_cap(
    current: u64,
    bytes: u64,
    used: u64,
    cap: u64,
)
    ensures
        in_flight_after(current, bytes, used, cap) is Some <==> (used + current + bytes <= cap || (
        cap == 0xffff_ffff_ffff_ffff && current + bytes <= 0xffff_ffff_ffff_ffff)),
        in_flight_after(current, bytes, used, cap) matches Some(next) ==> next == current + bytes,
        saturated(used + bytes) == if used + bytes > 0xffff_ffff_ffff_ffff {
            0xffff_ffff_ffff_ffff
        } else {
            used + bytes
        },
{
}

/// An upload counts as two mebibytes while it is under way, and may not be larger.
pub proof fn law_upload_limit(start: IntakeView, len: u64)
    ensures
        UPLOAD_MAX_BYTES == 2_097_152,
        start.with_chunk(len) is Some <==> start.written + len <= 2_097_152,
        start.with_chunk(len) matches Some(end) ==> end.written == start.written + len
            && end.bucket == start.bucket && end.raw_name == start.raw_name && end.mime_type
            == start.mime_type && end.file_seen == start.file_seen,
{
}

/// What is reported where an upload does not fit: under the cap of the server, and under
/// the limit for one upload.
pub proof fn law_refused_uploads_are_reported(used: u64, cap: u64, size: u64)
    ensures
        ({
            let e = quota_exceeded(used, cap);
            &&& e.code == AppErrorCode::IoError
            &&& e.message == "Upload quota exceeded for this server"@
            &&& e.detail == Some(
                "used="@ + decimal(used as nat) + " limit="@ + decimal(cap as nat),
            )
            &&& e.i18n == Some(
                (
                    I18nKey::UploadQuotaExceeded,
                    seq![("limit"@, decimal(cap as nat)), ("used"@, decimal(used as nat))],
                ),
            )
        }),
        ({
            let e = too_large(size);
            &&& e.code == AppErrorCode::IoError
            &&& e.message == "Upload exceeds the maximum allowed size"@
            &&& e.detail == Some("size="@ + decimal(size as nat) + " limit="@ + decimal(2_097_152))
            &&& e.i18n == Some(
                (
                    I18nKey::UploadTooLarge,
                    seq![("limit"@, decimal(2_097_152)), ("size"@, decimal(size as nat))],
                ),
            )
        }),
{
}

/// What the uploads take up: a file its size, a directory what its entries take up
/// together, however deep, and anything else, or what cannot be read, nothing.
pub proof fn law_uploads_take_up_their_files(
    len: u64,
    nodes: Vec<Option<UploadNode>>,
    before: Seq<Option<UploadNode>>,
    node: UploadNode,
)
    ensures
        node_bytes(UploadNode::File(Some(len))) == len,
        node_bytes(UploadNode::File(None)) == 0,
        node_bytes(UploadNode::Directory(Some(nodes))) == nodes_bytes(nodes@),
        node_bytes(UploadNode::Directory(None)) == 0,
        node_bytes(UploadNode::Other) == 0,
        nodes_bytes(Seq::empty()) == 0,
        nodes_bytes(before.push(Some(node))) == nodes_bytes(before) + node_bytes(node),
        nodes_bytes(before.push(None)) == nodes_bytes(before),
{
    assert(before.push(Some(node)).subrange(0, before.len() as int) =~= before);
    assert(before.push(None).subrange(0, before.len() as int) =~= before);
}

/// Each entry of the uploads directory counts, but for the one called `.tmp`, in which
/// uploads are staged, and one that cannot be read.
pub proof fn law_staging_directory_does_not_count(
    before: Seq<Option<UploadEntry>>,
    entry: UploadEntry,
)
    ensures
        listing_bytes(Seq::empty()) == 0,
        entry.name@ == ".tmp"@ ==> listing_bytes(before.push(Some(entry))) == listing_bytes(before),
        entry.name@ != ".tmp"@ ==> listing_bytes(before.push(Some(entry))) == listing_bytes(before)
            + node_bytes(entry.node),
        listing_bytes(before.push(None)) == listing_bytes(before),
{
    assert(before.push(Some(entry)).drop_last() =~= before);
    assert(before.push(None).drop_last() =~= before);
}

/// The fields of a request: the session goes by either of two names, the file by one, and
/// any other field is read and forgotten.
pub proof fn law_fields_go_by_their_names(name: Seq<char>)
    ensures
        field_plan("session_id"@) == FieldPlan::ReadSessionId,
        field_plan("sessionId"@) == FieldPlan::ReadSessionId,
        field_plan("file"@) == FieldPlan::StageFile,
        name != "session_id"@ && name != "sessionId"@ && name != "file"@ ==> field_plan(name)
            == FieldPlan::Drain,
{
    reveal_strlit("session_id");
    reveal_strlit("sessionId");
    reveal_strlit("file");
    assert("file"@.len() == 4);
}

/// A session that is named decides the directory, the last one named before all others; a
/// blank one changes nothing. Without any, the directory is `anon`.
pub proof fn law_session_decides_the_directory(intake: IntakeView, value: Seq<char>)
    ensures
        trimmed(value).len() > 0 ==> intake.with_session(value).target_bucket() == bucket_name(
            trimmed(value),
        ),
        trimmed(value).len() == 0 ==> intake.with_session(value) == intake,
        intake.with_session(value).raw_name == intake.raw_name,
        intake.with_session(value).mime_type == intake.mime_type,
        intake.with_session(value).written == intake.written,
        intake.with_session(value).file_seen == intake.file_seen,
        IntakeView::empty().target_bucket() == "anon"@,
        !IntakeView::empty().file_seen && IntakeView::empty().written == 0,
{
}

/// The file goes by the name that it came with, or by `file`, and has the type that it
/// came with; neither changes the directory or the bytes written.
pub proof fn law_file_goes_by_its_name(
    intake: IntakeView,
    name: Seq<char>,
    content_type: Option<Seq<char>>,
)
    ensures
        intake.with_file(Some(name), content_type).safe_name() == upload_name(name),
        intake.with_file(None, content_type).safe_name() == upload_name("file"@),
        intake.with_file(Some(name), content_type).mime_type == content_type,
        intake.with_file(None, content_type).mime_type == content_type,
        intake.with_file(Some(name), content_type).file_seen,
        intake.with_file(None, content_type).file_seen,
        intake.with_file(Some(name), content_type).bucket == intake.bucket,
        intake.with_file(None, content_type).bucket == intake.bucket,
        intake.with_file(Some(name), content_type).written == intake.written,
        intake.with_file(None, content_type).written == intake.written,
        IntakeView::empty().safe_name() == upload_name("file"@),
{
}

/// A path lies inside a directory if and only if it is that directory's path with further
/// components, or none, behind it.
pub proof fn law_path_inside_a_directory(root: Seq<Vec<u8>>, rest: Seq<Vec<u8>>, i: int)
    ensures
        inside(root + rest, root),
        0 <= i < root.len() && rest.len() == root.len() && rest[i]@ != root[i]@ ==> !inside(
            rest,
            root,
        ),
        rest.len() < root.len() ==> !inside(rest, root),
{
}

/// What is reported where a step of an upload fails.
pub proof fn law_upload_messages()
    ensures
        UploadStage::CreateRoot.message() == "Failed to create uploads root"@,
        UploadStage::CreateStagingDirectory.message() == "Failed to create tmp directory"@,
        UploadStage::ReadField.message() == "Invalid multipart upload"@,
        UploadStage::ReadSessionId.message() == "Failed to read session_id field"@,
        UploadStage::CreateStagingFile.message() == "Failed to create staging file"@,
        UploadStage::ReadChunk.message() == "Failed to read upload chunk"@,
        UploadStage::WriteChunk.message() == "Failed to write chunk"@,
        UploadStage::FlushStagingFile.message() == "Failed to flush staging file"@,
        UploadStage::CreateBucket.message() == "Failed to create uploads directory"@,
        UploadStage::MoveIntoPlace.message() == "Failed to move staged upload into place"@,
        UploadStage::ResolvePath.message() == "Failed to canonicalize upload path"@,
        UploadStage::ResolveRoot.message() == "Failed to canonicalize uploads root"@,
{
}


} // verus!
