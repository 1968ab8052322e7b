//! Plain text: character classes, trimming and searching.
//!
//! A `str` or `String` is modelled by its sequence of characters; positions and
//! lengths in this module count characters.
use vstd::prelude::*;

verus! {

/// `String::push` appends one character.
pub assume_specification[ String::push ](s: &mut String, ch: char)
    ensures
        final(s)@ == old(s)@.push(ch),
;

/// The result of Unicode lowercasing a text, as the standard library does it.
pub uninterp spec fn lowercase(text: Seq<char>) -> Seq<char>;

/// `str::to_lowercase`: the lowercase form is a function of the text alone and is
/// known here only under the name [`lowercase`].
#[verifier::external_body]
pub(crate) fn to_lowercase(s: &str) -> (out: String)
    ensures
        out@ == lowercase(s@),
{
    s.to_lowercase()
}

// ---------------------------------------------------------------------------
// Character classes
// ---------------------------------------------------------------------------

/// Characters with the Unicode property `White_Space`.
pub open spec fn is_whitespace(c: char) -> bool {
    ||| '\u{9}' <= c <= '\u{d}'
    ||| c == ' '
    ||| c == '\u{85}'
    ||| c == '\u{a0}'
    ||| c == '\u{1680}'
    ||| '\u{2000}' <= c <= '\u{200a}'
    ||| c == '\u{2028}'
    ||| c == '\u{2029}'
    ||| c == '\u{202f}'
    ||| c == '\u{205f}'
    ||| c == '\u{3000}'
}

/// Control characters (the Unicode general category `Cc`).
pub open spec fn is_control(c: char) -> bool {
    c <= '\u{1f}' || '\u{7f}' <= c <= '\u{9f}'
}

pub open spec fn is_ascii_digit(c: char) -> bool {
    '0' <= c <= '9'
}

pub open spec fn is_ascii_alphanumeric(c: char) -> bool {
    is_ascii_digit(c) || 'a' <= c <= 'z' || 'A' <= c <= 'Z'
}

pub fn whitespace(c: char) -> (r: bool)
    ensures
        r == is_whitespace(c),
{
    ('\u{9}' <= c && c <= '\u{d}') || c == ' ' || c == '\u{85}' || c == '\u{a0}' || c == '\u{1680}'
        || ('\u{2000}' <= c && c <= '\u{200a}') || c == '\u{2028}' || c == '\u{2029}' || c
        == '\u{202f}' || c == '\u{205f}' || c == '\u{3000}'
}

pub fn control(c: char) -> (r: bool)
    ensures
        r == is_control(c),
{
    c <= '\u{1f}' || ('\u{7f}' <= c && c <= '\u{9f}')
}

pub fn ascii_alphanumeric(c: char) -> (r: bool)
    ensures
        r == is_ascii_alphanumeric(c),
{
    ('0' <= c && c <= '9') || ('a' <= c && c <= 'z') || ('A' <= c && c <= 'Z')
}

/// `c` with `A`–`Z` replaced by `a`–`z`.
pub open spec fn ascii_lower(c: char) -> char {
    if 'A' <= c <= 'Z' {
        ((c as u32) + 32) as char
    } else {
        c
    }
}

pub fn ascii_lower_char(c: char) -> (r: char)
    ensures
        r == ascii_lower(c),
{
    if 'A' <= c && c <= 'Z' {
        ((c as u8) + 32) as char
    } else {
        c
    }
}

/// The characters that a trim removes.
#[derive(Clone, Copy, PartialEq, Eq, Structural, Debug)]
pub enum TrimSet {
    /// Unicode whitespace.
    Whitespace,
    /// Full stops and Unicode whitespace.
    DotsAndWhitespace,
    /// The underscore.
    Underscore,
}

impl TrimSet {
    pub open spec fn holds(self, c: char) -> bool {
        match self {
            TrimSet::Whitespace => is_whitespace(c),
            TrimSet::DotsAndWhitespace => c == '.' || is_whitespace(c),
            TrimSet::Underscore => c == '_',
        }
    }

    pub fn has(self, c: char) -> (r: bool)
        ensures
            r == self.holds(c),
    {
        match self {
            TrimSet::Whitespace => whitespace(c),
            TrimSet::DotsAndWhitespace => c == '.' || whitespace(c),
            TrimSet::Underscore => c == '_',
        }
    }
}

// ---------------------------------------------------------------------------
// Conversions and equality
// ---------------------------------------------------------------------------

/// The characters of `s`, in order.
pub fn chars_of(s: &str) -> (out: Vec<char>)
    ensures
        out@ == s@,
{
    let mut out: Vec<char> = Vec::new();
    for c in it: s.chars()
        invariant
            out@ == it.seq().take(it.index()),
            it.seq() == s@,
    {
        out.push(c);
    }
    out
}

/// The text made of `chars`, in order.
pub fn string_of(chars: &[char]) -> (out: String)
    ensures
        out@ == chars@,
{
    let mut out = String::new();
    let mut i: usize = 0;
    while i < chars.len()
        invariant
            i <= chars@.len(),
            out@ == chars@.take(i as int),
        decreases chars.len() - i,
    {
        out.push(chars[i]);
        i = i + 1;
    }
    assert(chars@.take(chars@.len() as int) =~= chars@);
    out
}

/// Whether the two texts are the same.
pub fn same_text(a: &str, b: &str) -> (r: bool)
    ensures
        r == (a@ == b@),
{
    let x: Vec<char> = chars_of(a);
    let y: Vec<char> = chars_of(b);
    if x.len() != y.len() {
        return false;
    }
    let mut i: usize = 0;
    while i < x.len()
        invariant
            i <= x.len(),
            x@ == a@,
            y@ == b@,
            x.len() == y.len(),
            forall|k: int| 0 <= k < i ==> x@[k] == y@[k],
        decreases x.len() - i,
    {
        if x[i] != y[i] {
            return false;
        }
        i = i + 1;
    }
    assert(a@ =~= b@);
    true
}

/// The model of an optional text.
pub open spec fn opt_view(o: Option<String>) -> Option<Seq<char>> {
    match o {
        Some(s) => Some(s@),
        None => None,
    }
}

/// The model of a list of texts.
pub open spec fn texts(list: Seq<String>) -> Seq<Seq<char>> {
    list.map_values(|s: String| s@)
}

// ---------------------------------------------------------------------------
// Trimming
// ---------------------------------------------------------------------------

/// `s` without its longest prefix of characters in `set`.
pub open spec fn strip_front(s: Seq<char>, set: TrimSet) -> Seq<char>
    decreases s.len(),
{
    if s.len() > 0 && set.holds(s.first()) {
        strip_front(s.drop_first(), set)
    } else {
        s
    }
}

/// `s` without its longest suffix of characters in `set`.
pub open spec fn strip_back(s: Seq<char>, set: TrimSet) -> Seq<char>
    decreases s.len(),
{
    if s.len() > 0 && set.holds(s.last()) {
        strip_back(s.drop_last(), set)
    } else {
        s
    }
}

/// `s` without the characters in `set` at both ends.
pub open spec fn trimmed_of(s: Seq<char>, set: TrimSet) -> Seq<char> {
    strip_back(strip_front(s, set), set)
}

/// `s` without the whitespace at both ends.
pub open spec fn trimmed(s: Seq<char>) -> Seq<char> {
    trimmed_of(s, TrimSet::Whitespace)
}

pub proof fn lemma_strip_front(s: Seq<char>, set: TrimSet)
    ensures
        ({
            let r = strip_front(s, set);
            &&& r.len() <= s.len()
            &&& r == s.skip(s.len() - r.len())
            &&& r.len() > 0 ==> !set.holds(r.first())
        }),
    decreases s.len(),
{
    if s.len() > 0 && set.holds(s.first()) {
        lemma_strip_front(s.drop_first(), set);
        let r = strip_front(s, set);
        assert(s.drop_first().skip(s.len() - 1 - r.len()) =~= s.skip(s.len() - r.len()));
    } else {
        assert(s.skip(0) =~= s);
    }
}

proof fn lemma_strip_back(s: Seq<char>, set: TrimSet)
    ensures
        ({
            let r = strip_back(s, set);
            &&& r.len() <= s.len()
            &&& r == s.take(r.len() as int)
            &&& r.len() > 0 ==> !set.holds(r.last())
        }),
    decreases s.len(),
{
    if s.len() > 0 && set.holds(s.last()) {
        lemma_strip_back(s.drop_last(), set);
        let r = strip_back(s, set);
        assert(s.drop_last().take(r.len() as int) =~= s.take(r.len() as int));
    } else {
        assert(s.take(s.len() as int) =~= s);
    }
}

/// What a trim leaves over is a piece of the text that neither begins nor ends with a
/// character of the set.
pub proof fn law_trim(s: Seq<char>, set: TrimSet)
    ensures
        exists|a: int, b: int| 0 <= a <= b <= s.len() && trimmed_of(s, set) == s.subrange(a, b),
        trimmed_of(s, set).len() > 0 ==> !set.holds(trimmed_of(s, set).first()) && !set.holds(
            trimmed_of(s, set).last(),
        ),
{
    let front = strip_front(s, set);
    let r = trimmed_of(s, set);
    lemma_strip_front(s, set);
    lemma_strip_back(front, set);
    let a = s.len() - front.len();
    let b = a + r.len();
    assert(r =~= s.subrange(a, b));
}

/// The number of leading characters of `chars` that are in `set`.
fn front_len(chars: &[char], set: TrimSet) -> (n: usize)
    ensures
        n <= chars@.len(),
        strip_front(chars@, set) == chars@.skip(n as int),
{
    let mut i: usize = 0;
    assert(chars@.skip(0) =~= chars@);
    while i < chars.len() && set.has(chars[i])
        invariant
            i <= chars@.len(),
            strip_front(chars@, set) == strip_front(chars@.skip(i as int), set),
        decreases chars.len() - i,
    {
        assert(chars@.skip(i as int).drop_first() =~= chars@.skip(i + 1));
        i = i + 1;
    }
    i
}

/// `s` without the leading characters in `set`.
pub fn trim_start_of<'a>(s: &'a str, set: TrimSet) -> (out: &'a str)
    ensures
        out@ == strip_front(s@, set),
{
    let chars: Vec<char> = chars_of(s);
    let start: usize = front_len(chars.as_slice(), set);
    s.substring_char(start, chars.len())
}

/// `s` without the trailing characters in `set`.
pub fn trim_end_of<'a>(s: &'a str, set: TrimSet) -> (out: &'a str)
    ensures
        out@ == strip_back(s@, set),
{
    let chars: Vec<char> = chars_of(s);
    let mut end: usize = chars.len();
    assert(s@.take(end as int) =~= s@);
    while end > 0 && set.has(chars[end - 1])
        invariant
            end <= chars.len(),
            chars@ == s@,
            strip_back(s@, set) == strip_back(s@.take(end as int), set),
        decreases end,
    {
        assert(s@.take(end as int).drop_last() =~= s@.take(end - 1));
        end = end - 1;
    }
    s.substring_char(0, end)
}

/// `s` without the characters in `set` at both ends.
pub fn trim_of<'a>(s: &'a str, set: TrimSet) -> (out: &'a str)
    ensures
        out@ == trimmed_of(s@, set),
{
    trim_end_of(trim_start_of(s, set), set)
}

/// `s` without the whitespace at both ends.
pub fn trim<'a>(s: &'a str) -> (out: &'a str)
    ensures
        out@ == trimmed(s@),
{
    trim_of(s, TrimSet::Whitespace)
}

// ---------------------------------------------------------------------------
// Searching
// ---------------------------------------------------------------------------

/// `needle` stands in `hay` at position `at`.
pub open spec fn occurs_at(hay: Seq<char>, needle: Seq<char>, at: int) -> bool {
    0 <= at && at + needle.len() <= hay.len() && hay.subrange(at, at + needle.len()) == needle
}

/// `needle` stands somewhere in `hay`.
pub open spec fn contains_text(hay: Seq<char>, needle: Seq<char>) -> bool {
    exists|at: int| occurs_at(hay, needle, at)
}

fn occurs(hay: &[char], needle: &[char], at: usize) -> (r: bool)
    ensures
        r == occurs_at(hay@, needle@, at as int),
{
    if at > hay.len() || needle.len() > hay.len() - at {
        return false;
    }
    let mut i: usize = 0;
    while i < needle.len()
        invariant
            i <= needle@.len(),
            at + needle@.len() <= hay@.len() <= usize::MAX,
            forall|k: int| 0 <= k < i ==> hay@[at + k] == needle@[k],
        decreases needle.len() - i,
    {
        if hay[at + i] != needle[i] {
            proof {
                assert(hay@.subrange(at as int, at + needle@.len())[i as int] != needle@[i as int]);
            }
            return false;
        }
        i = i + 1;
    }
    assert(hay@.subrange(at as int, at + needle@.len()) =~= needle@);
    true
}

/// The first position at or after `from` at which `needle` stands in `hay`.
pub fn find_from(hay: &[char], needle: &[char], from: usize) -> (r: Option<usize>)
    ensures
        match r {
            Some(at) => from <= at && occurs_at(hay@, needle@, at as int) && forall|k: int|
                from <= k < at ==> !occurs_at(hay@, needle@, k),
            None => forall|k: int| from <= k ==> !occurs_at(hay@, needle@, k),
        },
{
    let mut at: usize = from;
    while at < hay.len()
        invariant
            from <= at,
            forall|k: int| from <= k < at ==> !occurs_at(hay@, needle@, k),
        decreases hay@.len() - at,
    {
        if occurs(hay, needle, at) {
            return Some(at);
        }
        at = at + 1;
    }
    if occurs(hay, needle, at) {
        Some(at)
    } else {
        None
    }
}

/// Whether `needle` stands somewhere in `hay`.
pub fn contains(hay: &str, needle: &str) -> (r: bool)
    ensures
        r == contains_text(hay@, needle@),
{
    let h: Vec<char> = chars_of(hay);
    let n: Vec<char> = chars_of(needle);
    match find_from(h.as_slice(), n.as_slice(), 0) {
        Some(_) => true,
        None => {
            assert(forall|at: int| !occurs_at(hay@, needle@, at));
            false
        },
    }
}

/// Whether `s` begins with `prefix`.
pub fn starts_with(s: &str, prefix: &str) -> (r: bool)
    ensures
        r == prefix@.is_prefix_of(s@),
{
    let h: Vec<char> = chars_of(s);
    let n: Vec<char> = chars_of(prefix);
    let r: bool = occurs(h.as_slice(), n.as_slice(), 0);
    assert(r == prefix@.is_prefix_of(s@)) by {
        if prefix@.len() <= s@.len() {
            assert(s@.subrange(0, prefix@.len() as int) =~= s@.take(prefix@.len() as int));
        }
    }
    r
}

/// Where the front of a text is nothing but characters of the set, trimming it off
/// changes nothing that a trim leaves over.
pub proof fn lemma_strip_front_skips(front: Seq<char>, rest: Seq<char>, set: TrimSet)
    requires
        forall|i: int| 0 <= i < front.len() ==> set.holds(#[trigger] front[i]),
    ensures
        strip_front(front + rest, set) == strip_front(rest, set),
    decreases front.len(),
{
    if front.len() == 0 {
        assert(front + rest =~= rest);
    } else {
        let whole = front + rest;
        assert(set.holds(front[0]));
        assert(whole.drop_first() =~= front.drop_first() + rest);
        assert forall|i: int| 0 <= i < front.drop_first().len() implies set.holds(
            #[trigger] front.drop_first()[i],
        ) by {
            assert(front.drop_first()[i] == front[i + 1]);
        }
        lemma_strip_front_skips(front.drop_first(), rest, set);
    }
}

/// The same for the back of a text.
pub proof fn lemma_strip_back_skips(rest: Seq<char>, back: Seq<char>, set: TrimSet)
    requires
        forall|i: int| 0 <= i < back.len() ==> set.holds(#[trigger] back[i]),
    ensures
        strip_back(rest + back, set) == strip_back(rest, set),
    decreases back.len(),
{
    if back.len() == 0 {
        assert(rest + back =~= rest);
    } else {
        let whole = rest + back;
        assert(set.holds(back[back.len() - 1]));
        assert(whole.drop_last() =~= rest + back.drop_last());
        assert forall|i: int| 0 <= i < back.drop_last().len() implies set.holds(
            #[trigger] back.drop_last()[i],
        ) by {
            assert(back.drop_last()[i] == back[i]);
        }
        lemma_strip_back_skips(rest, back.drop_last(), set);
    }
}

/// A trim takes off what belongs to the set and nothing else: of a text that stands
/// between characters of the set, and neither begins nor ends with one itself, exactly
/// that text is left over. It is left over whole, whatever it holds inside.
pub proof fn law_trim_takes_off_the_set_alone(
    front: Seq<char>,
    body: Seq<char>,
    back: Seq<char>,
    set: TrimSet,
)
    requires
        forall|i: int| 0 <= i < front.len() ==> set.holds(#[trigger] front[i]),
        forall|i: int| 0 <= i < back.len() ==> set.holds(#[trigger] back[i]),
        body.len() > 0 ==> !set.holds(body[0]) && !set.holds(body[body.len() - 1]),
    ensures
        trimmed_of(front + body + back, set) == body,
        strip_front(front + body, set) == body,
        strip_back(body + back, set) == body,
{
    lemma_strip_front_skips(front, body + back, set);
    assert(front + body + back =~= front + (body + back));
    lemma_strip_front_skips(front, body, set);
    lemma_strip_back_skips(body, back, set);
    if body.len() == 0 {
        assert(body + back =~= back);
        lemma_strip_front_skips(back, Seq::empty(), set);
        assert(back + Seq::<char>::empty() =~= back);
    } else {
        assert((body + back)[0] == body[0]);
    }
}

/// What trims take off: whitespace, a full stop beside it, or the underscore. No letter,
/// no digit and no other visible character of ASCII is among it.
pub proof fn law_trim_sets(c: char)
    ensures
        TrimSet::Underscore.holds(c) <==> c == '_',
        TrimSet::DotsAndWhitespace.holds(c) <==> c == '.' || TrimSet::Whitespace.holds(c),
        TrimSet::Whitespace.holds(' ') && TrimSet::Whitespace.holds('\t')
            && TrimSet::Whitespace.holds('\n') && TrimSet::Whitespace.holds('\r'),
        '!' <= c <= '~' ==> !TrimSet::Whitespace.holds(c),
{
}

/// Whitespace is what Unicode calls so, by number.
pub proof fn law_whitespace_by_number(c: char)
    ensures
        is_whitespace(c) <==> {
            let n = c as u32;
            ||| 9 <= n <= 13
            ||| n == 32 || n == 133 || n == 160 || n == 5760
            ||| 8192 <= n <= 8202
            ||| n == 8232 || n == 8233 || n == 8239 || n == 8287 || n == 12288
        },
{
}

/// Control characters are the first 32 and those from 127 to 159.
pub proof fn law_control_by_number(c: char)
    ensures
        is_control(c) <==> (c as u32) < 32 || 127 <= (c as u32) <= 159,
{
}

/// Letters and digits of ASCII, by number; a capital has its small letter 32 further on,
/// and nothing else changes.
pub proof fn law_ascii_by_number(c: char)
    ensures
        is_ascii_alphanumeric(c) <==> 48 <= (c as u32) <= 57 || 65 <= (c as u32) <= 90 || 97 <= (
        c as u32) <= 122,
        65 <= (c as u32) <= 90 ==> ascii_lower(c) as u32 == c as u32 + 32,
        !(65 <= (c as u32) <= 90) ==> ascii_lower(c) == c,
{
}

/// A text contains another if and only if it is that text with something before and
/// something behind it.
pub proof fn law_contains_text(hay: Seq<char>, needle: Seq<char>)
    ensures
        contains_text(hay, needle) <==> exists|a: Seq<char>, b: Seq<char>|
            hay == #[trigger] (a + needle + b),
{
    if contains_text(hay, needle) {
        let at = choose|at: int| occurs_at(hay, needle, at);
        let a = hay.take(at);
        let b = hay.skip(at + needle.len());
        assert(hay =~= a + needle + b);
    }
    if exists|a: Seq<char>, b: Seq<char>| hay == #[trigger] (a + needle + b) {
        let (a, b) = choose|a: Seq<char>, b: Seq<char>| hay == #[trigger] (a + needle + b);
        assert(hay.subrange(a.len() as int, (a.len() + needle.len()) as int) =~= needle);
        assert(occurs_at(hay, needle, a.len() as int));
    }
}


/// Trimming the front splits a text into a front of the set and the rest.
pub proof fn lemma_strip_front_parts(s: Seq<char>, set: TrimSet) -> (front: Seq<char>)
    ensures
        s == front + strip_front(s, set),
        forall|i: int| 0 <= i < front.len() ==> set.holds(#[trigger] front[i]),
    decreases s.len(),
{
    if s.len() > 0 && set.holds(s[0]) {
        let shorter = lemma_strip_front_parts(s.drop_first(), set);
        let front = seq![s[0]] + shorter;
        let rest = strip_front(s, set);
        assert(front + rest =~= seq![s[0]] + (shorter + rest));
        assert(s =~= seq![s[0]] + s.drop_first());
        assert forall|i: int| 0 <= i < front.len() implies set.holds(#[trigger] front[i]) by {
            if i > 0 {
                assert(front[i] == shorter[i - 1]);
            }
        }
        front
    } else {
        assert(s =~= Seq::<char>::empty() + strip_front(s, set));
        Seq::empty()
    }
}

/// Trimming the back splits a text into the rest and a back of the set.
pub proof fn lemma_strip_back_parts(s: Seq<char>, set: TrimSet) -> (back: Seq<char>)
    ensures
        s == strip_back(s, set) + back,
        forall|i: int| 0 <= i < back.len() ==> set.holds(#[trigger] back[i]),
    decreases s.len(),
{
    if s.len() > 0 && set.holds(s[s.len() - 1]) {
        let shorter = lemma_strip_back_parts(s.drop_last(), set);
        let back = shorter.push(s[s.len() - 1]);
        let rest = strip_back(s, set);
        assert(rest + back =~= (rest + shorter).push(s[s.len() - 1]));
        assert(s =~= s.drop_last().push(s[s.len() - 1]));
        assert forall|i: int| 0 <= i < back.len() implies set.holds(#[trigger] back[i]) by {
            if i < shorter.len() {
                assert(back[i] == shorter[i]);
            }
        }
        back
    } else {
        assert(s =~= strip_back(s, set) + Seq::<char>::empty());
        Seq::empty()
    }
}

/// What stands before and behind a trimmed text: characters of the set alone.
pub proof fn lemma_trim_parts(s: Seq<char>, set: TrimSet) -> (parts: (Seq<char>, Seq<char>))
    ensures
        s == parts.0 + trimmed_of(s, set) + parts.1,
        forall|i: int| 0 <= i < parts.0.len() ==> set.holds(#[trigger] parts.0[i]),
        forall|i: int| 0 <= i < parts.1.len() ==> set.holds(#[trigger] parts.1[i]),
{
    let front = lemma_strip_front_parts(s, set);
    let back = lemma_strip_back_parts(strip_front(s, set), set);
    assert(s =~= front + trimmed_of(s, set) + back);
    (front, back)
}

proof fn lemma_strip_front_of_back(rest: Seq<char>, back: Seq<char>, set: TrimSet)
    requires
        forall|i: int| 0 <= i < back.len() ==> set.holds(#[trigger] back[i]),
    ensures
        strip_back(strip_front(rest + back, set), set) == strip_back(strip_front(rest, set), set),
    decreases rest.len(),
{
    if rest.len() == 0 {
        assert(rest + back =~= back);
        lemma_strip_front_skips(back, Seq::empty(), set);
        assert(back + Seq::<char>::empty() =~= back);
        assert(strip_front(Seq::<char>::empty(), set) == Seq::<char>::empty());
        assert(rest =~= Seq::<char>::empty());
    } else if set.holds(rest[0]) {
        assert((rest + back).drop_first() =~= rest.drop_first() + back);
        lemma_strip_front_of_back(rest.drop_first(), back, set);
    } else {
        assert((rest + back)[0] == rest[0]);
        lemma_strip_back_skips(rest, back, set);
    }
}

/// Characters of the set around a text change nothing of what a trim leaves over.
pub proof fn law_trim_ignores_what_it_takes_off(
    front: Seq<char>,
    body: Seq<char>,
    back: Seq<char>,
    set: TrimSet,
)
    requires
        forall|i: int| 0 <= i < front.len() ==> set.holds(#[trigger] front[i]),
        forall|i: int| 0 <= i < back.len() ==> set.holds(#[trigger] back[i]),
    ensures
        trimmed_of(front + body + back, set) == trimmed_of(body, set),
{
    assert(front + body + back =~= front + (body + back));
    lemma_strip_front_skips(front, body + back, set);
    lemma_strip_front_of_back(body, back, set);
}


} // verus!
