//! Sequences of characters and bytes: searching, splitting, trimming and
//! comparing. The spec functions here are the vocabulary in which the rest of
//! the library states what it parses.

use vstd::prelude::*;
use vstd::string::*;
use vstd::utf8::*;

verus! {

/// How many leading elements of `s` satisfy `p`.
pub open spec fn prefix_len<T>(s: Seq<T>, p: spec_fn(T) -> bool) -> nat
    decreases s.len(),
{
    if s.len() == 0 || !p(s[0]) {
        0
    } else {
        1 + prefix_len(s.drop_first(), p)
    }
}

/// How many trailing elements of `s` satisfy `p`.
pub open spec fn suffix_len<T>(s: Seq<T>, p: spec_fn(T) -> bool) -> nat
    decreases s.len(),
{
    if s.len() == 0 || !p(s.last()) {
        0
    } else {
        1 + suffix_len(s.drop_last(), p)
    }
}

/// `prefix_len` counts a run: every element before it satisfies `p`, and the
/// element at it, if there is one, does not.
pub proof fn lemma_prefix_len<T>(s: Seq<T>, p: spec_fn(T) -> bool)
    ensures
        prefix_len(s, p) <= s.len(),
        forall|j: int| 0 <= j < prefix_len(s, p) ==> p(#[trigger] s[j]),
        prefix_len(s, p) < s.len() ==> !p(s[prefix_len(s, p) as int]),
    decreases s.len(),
{
    if !(s.len() == 0 || !p(s[0])) {
        let t = s.drop_first();
        lemma_prefix_len(t, p);
        assert forall|j: int| 0 <= j < prefix_len(s, p) implies p(#[trigger] s[j]) by {
            if j > 0 {
                assert(s[j] == t[j - 1]);
            }
        }
        if prefix_len(s, p) < s.len() {
            assert(s[prefix_len(s, p) as int] == t[prefix_len(t, p) as int]);
        }
    }
}

/// The run that `prefix_len` counts is the only one: an index with `p` on
/// everything before it and not on the element at it is `prefix_len`.
pub proof fn lemma_prefix_len_is<T>(s: Seq<T>, p: spec_fn(T) -> bool, i: int)
    requires
        0 <= i <= s.len(),
        forall|j: int| 0 <= j < i ==> p(#[trigger] s[j]),
        i < s.len() ==> !p(s[i]),
    ensures
        prefix_len(s, p) == i,
{
    lemma_prefix_len(s, p);
    let n = prefix_len(s, p) as int;
    if n < i {
        assert(p(s[n]));
    } else if n > i {
        assert(p(s[i]));
    }
}

/// `suffix_len` counts a run at the end: every element of the last
/// `suffix_len` satisfies `p`, and the one before them, if any, does not.
pub proof fn lemma_suffix_len<T>(s: Seq<T>, p: spec_fn(T) -> bool)
    ensures
        suffix_len(s, p) <= s.len(),
        forall|j: int| s.len() - suffix_len(s, p) <= j < s.len() ==> p(#[trigger] s[j]),
        suffix_len(s, p) < s.len() ==> !p(s[s.len() - suffix_len(s, p) - 1]),
    decreases s.len(),
{
    if !(s.len() == 0 || !p(s.last())) {
        let t = s.drop_last();
        lemma_suffix_len(t, p);
        assert forall|j: int| s.len() - suffix_len(s, p) <= j < s.len() implies p(
            #[trigger] s[j],
        ) by {
            if j < s.len() - 1 {
                assert(s[j] == t[j]);
            }
        }
        if suffix_len(s, p) < s.len() {
            assert(s[s.len() - suffix_len(s, p) - 1] == t[t.len() - suffix_len(t, p) - 1]);
        }
    }
}

/// The run that `suffix_len` counts is the only one.
pub proof fn lemma_suffix_len_is<T>(s: Seq<T>, p: spec_fn(T) -> bool, n: int)
    requires
        0 <= n <= s.len(),
        forall|j: int| s.len() - n <= j < s.len() ==> p(#[trigger] s[j]),
        n < s.len() ==> !p(s[s.len() - n - 1]),
    ensures
        suffix_len(s, p) == n,
{
    lemma_suffix_len(s, p);
    let m = suffix_len(s, p) as int;
    if m < n {
        assert(p(s[s.len() - m - 1]));
    } else if m > n {
        assert(p(s[s.len() - n - 1]));
    }
}

/// The predicate "is not `x`".
pub open spec fn other_than<T>(x: T) -> spec_fn(T) -> bool {
    |y: T| y != x
}

/// The index of the first `x` in `s`, or the length of `s` where `s` holds
/// no `x`.
pub open spec fn position<T>(s: Seq<T>, x: T) -> nat {
    prefix_len(s, other_than(x))
}

/// `position` is at most the length, nothing before it is `x`, and what
/// stands at it is `x`.
pub proof fn lemma_position<T>(s: Seq<T>, x: T)
    ensures
        position(s, x) <= s.len(),
        forall|j: int| 0 <= j < position(s, x) ==> #[trigger] s[j] != x,
        position(s, x) < s.len() ==> s[position(s, x) as int] == x,
        position(s, x) < s.len() <==> s.contains(x),
{
    lemma_prefix_len(s, other_than(x));
    let n = position(s, x) as int;
    assert forall|j: int| 0 <= j < n implies #[trigger] s[j] != x by {
        assert((other_than(x))(s[j]));
    }
    if s.contains(x) {
        let i = choose|i: int| 0 <= i < s.len() && s[i] == x;
        if n >= s.len() {
            assert(s[i] != x);
        }
    }
}

/// An index with no `x` before it and an `x` at it (or the length, with no `x`
/// at all) is `position`.
pub proof fn lemma_position_is<T>(s: Seq<T>, x: T, i: int)
    requires
        0 <= i <= s.len(),
        forall|j: int| 0 <= j < i ==> #[trigger] s[j] != x,
        i < s.len() ==> s[i] == x,
    ensures
        position(s, x) == i,
{
    lemma_prefix_len_is(s, other_than(x), i);
}

/// Where `s` holds an `x`, the first `x` of `s` followed by anything is the
/// first `x` of `s`.
pub proof fn lemma_position_with_more<T>(s: Seq<T>, more: Seq<T>, x: T)
    requires
        position(s, x) < s.len(),
    ensures
        position(s + more, x) == position(s, x),
{
    lemma_position(s, x);
    let p = position(s, x) as int;
    let longer = s + more;
    assert forall|j: int| 0 <= j < p implies #[trigger] longer[j] != x by {
        assert(longer[j] == s[j]);
    }
    assert(longer[p] == s[p]);
    lemma_position_is(longer, x, p);
}

/// `s` cut at its first `d`: what stands before it and what stands after it.
/// `None` where `s` holds no `d`.
pub open spec fn halves<T>(s: Seq<T>, d: T) -> Option<(Seq<T>, Seq<T>)> {
    let p = position(s, d) as int;
    if p < s.len() {
        Some((s.take(p), s.skip(p + 1)))
    } else {
        None
    }
}

/// `s` cut at every `d`. There is always at least one piece.
pub open spec fn pieces<T>(s: Seq<T>, d: T) -> Seq<Seq<T>>
    decreases s.len(),
{
    let p = position(s, d) as int;
    if p < s.len() {
        seq![s.take(p)] + pieces(s.skip(p + 1), d)
    } else {
        seq![s]
    }
}

/// No piece holds the delimiter.
pub proof fn lemma_pieces_hold_no_delimiter<T>(s: Seq<T>, d: T)
    ensures
        pieces(s, d).len() >= 1,
        forall|i: int| 0 <= i < pieces(s, d).len() ==> !(#[trigger] pieces(s, d)[i]).contains(d),
    decreases s.len(),
{
    lemma_position(s, d);
    let p = position(s, d) as int;
    if p < s.len() {
        let rest = s.skip(p + 1);
        lemma_pieces_hold_no_delimiter(rest, d);
        let head = s.take(p);
        assert(!head.contains(d)) by {
            if head.contains(d) {
                let i = choose|i: int| 0 <= i < head.len() && head[i] == d;
                assert(s[i] == d);
            }
        }
        assert forall|i: int| 0 <= i < pieces(s, d).len() implies !(#[trigger] pieces(
            s,
            d,
        )[i]).contains(d) by {
            if i > 0 {
                assert(pieces(s, d)[i] == pieces(rest, d)[i - 1]);
            }
        }
    }
}

/// The items in a row, with `d` between each two.
pub open spec fn joined<T>(items: Seq<Seq<T>>, d: T) -> Seq<T>
    decreases items.len(),
{
    if items.len() == 0 {
        Seq::empty()
    } else if items.len() == 1 {
        items[0]
    } else {
        items[0] + seq![d] + joined(items.drop_first(), d)
    }
}

/// The pieces of `s`, joined again, are `s`.
pub proof fn lemma_joined_pieces<T>(s: Seq<T>, d: T)
    ensures
        joined(pieces(s, d), d) == s,
    decreases s.len(),
{
    lemma_position(s, d);
    let p = position(s, d) as int;
    if p < s.len() {
        let rest = s.skip(p + 1);
        lemma_joined_pieces(rest, d);
        lemma_pieces_hold_no_delimiter(rest, d);
        let all = pieces(s, d);
        assert(all.drop_first() =~= pieces(rest, d));
        assert(all[0] == s.take(p));
        assert(s.take(p) + seq![d] + rest =~= s);
    }
}

/// Items that hold no `d`, joined by `d` and cut at every `d`, are the items
/// again.
pub proof fn lemma_pieces_of_joined<T>(items: Seq<Seq<T>>, d: T)
    requires
        items.len() >= 1,
        forall|i: int| 0 <= i < items.len() ==> !(#[trigger] items[i]).contains(d),
    ensures
        pieces(joined(items, d), d) == items,
    decreases items.len(),
{
    let whole = joined(items, d);
    let first = items[0];
    assert forall|j: int| 0 <= j < first.len() implies #[trigger] whole[j] != d by {
        assert(whole[j] == first[j]);
        assert(first.contains(first[j]));
    }
    if items.len() == 1 {
        lemma_position_is(whole, d, whole.len() as int);
        assert(pieces(whole, d) =~= items);
    } else {
        let others = items.drop_first();
        assert forall|i: int| 0 <= i < others.len() implies !(#[trigger] others[i]).contains(
            d,
        ) by {
            assert(others[i] == items[i + 1]);
        }
        lemma_pieces_of_joined(others, d);
        assert(whole[first.len() as int] == d);
        lemma_position_is(whole, d, first.len() as int);
        assert(whole.take(first.len() as int) =~= first);
        assert(whole.skip(first.len() as int + 1) =~= joined(others, d));
        assert(pieces(whole, d) =~= items);
    }
}

/// The characters with the Unicode property White_Space.
pub open spec fn is_whitespace(c: char) -> bool {
    ||| '\u{9}' <= c <= '\u{d}'
    ||| c == ' '
    ||| c == '\u{85}'
    ||| c == '\u{a0}'
    ||| c == '\u{1680}'
    ||| '\u{2000}' <= c <= '\u{200a}'
    ||| c == '\u{2028}'
    ||| c == '\u{2029}'
    ||| c == '\u{202f}'
    ||| c == '\u{205f}'
    ||| c == '\u{3000}'
}

/// The five ASCII blanks: space, tab, line feed, form feed, carriage return.
pub open spec fn is_ascii_space(c: char) -> bool {
    c == ' ' || c == '\t' || c == '\n' || c == '\u{c}' || c == '\r'
}

/// `is_whitespace` as a predicate value.
pub open spec fn whitespace() -> spec_fn(char) -> bool {
    |c: char| is_whitespace(c)
}

/// `is_ascii_space` as a predicate value.
pub open spec fn ascii_space() -> spec_fn(char) -> bool {
    |c: char| is_ascii_space(c)
}

/// The negation of `is_ascii_space` as a predicate value.
pub open spec fn ascii_visible() -> spec_fn(char) -> bool {
    |c: char| !is_ascii_space(c)
}

/// `s` without its leading and trailing whitespace.
pub open spec fn trimmed(s: Seq<char>) -> Seq<char> {
    let t = s.skip(prefix_len(s, whitespace()) as int);
    t.take(t.len() - suffix_len(t, whitespace()))
}

/// The first run of characters of `s` that are not ASCII blanks; empty where
/// `s` holds only blanks.
pub open spec fn first_word(s: Seq<char>) -> Seq<char> {
    let t = s.skip(prefix_len(s, ascii_space()) as int);
    t.take(prefix_len(t, ascii_visible()) as int)
}

/// What follows the first word of `s`.
pub open spec fn after_first_word(s: Seq<char>) -> Seq<char> {
    let t = s.skip(prefix_len(s, ascii_space()) as int);
    t.skip(prefix_len(t, ascii_visible()) as int)
}

/// A trimmed text neither starts nor ends with whitespace, and it is the
/// text itself where that already holds of the text.
pub proof fn lemma_trimmed(s: Seq<char>)
    ensures
        trimmed(s).len() > 0 ==> !is_whitespace(trimmed(s).first()) && !is_whitespace(
            trimmed(s).last(),
        ),
        s.len() > 0 && !is_whitespace(s.first()) && !is_whitespace(s.last()) ==> trimmed(s) == s,
        s.len() == 0 ==> trimmed(s) == s,
{
    lemma_prefix_len(s, whitespace());
    let t = s.skip(prefix_len(s, whitespace()) as int);
    lemma_suffix_len(t, whitespace());
    let r = trimmed(s);
    if r.len() > 0 {
        assert(r.first() == t[0]);
        assert(r.last() == t[t.len() - suffix_len(t, whitespace()) - 1]);
    }
    if s.len() > 0 && !is_whitespace(s.first()) && !is_whitespace(s.last()) {
        assert(t =~= s);
        assert(r =~= s);
    }
    if s.len() == 0 {
        assert(r =~= s);
    }
}

/// The lowercase form of a text, as `str::to_lowercase` of the standard
/// library gives it: Unicode's mapping, which may change the number of
/// characters. Nothing is stated of its values here.
pub uninterp spec fn lowercase_of(s: Seq<char>) -> Seq<char>;

/// Calls `str::to_lowercase`. The contract claims only that the string
/// returned is a function of the characters handed in, named `lowercase_of`.
#[verifier::external_body]
pub(crate) fn to_lowercase(s: &str) -> (r: String)
    ensures
        r@ == lowercase_of(s@),
{
    s.to_lowercase()
}

/// The text that `bytes` encode, or the empty text where they are not
/// UTF-8.
pub open spec fn text_or_empty(bytes: Seq<u8>) -> Seq<char> {
    if valid_utf8(bytes) {
        decode_utf8(bytes)
    } else {
        Seq::empty()
    }
}

/// Calls `core::str::from_utf8`. The contract claims that it gives a text
/// just where the bytes are valid UTF-8, and that the text is then the one
/// they encode.
#[verifier::external_body]
pub(crate) fn text_of_utf8<'a>(bytes: &'a [u8]) -> (r: Option<&'a str>)
    ensures
        r is Some <==> valid_utf8(bytes@),
        r matches Some(text) ==> text@ == decode_utf8(bytes@),
{
    core::str::from_utf8(bytes).ok()
}

/// The text that `bytes` encode, or the empty text where they are not
/// UTF-8.
pub fn lossy_text<'a>(bytes: &'a [u8]) -> (r: &'a str)
    ensures
        r@ == text_or_empty(bytes@),
{
    match text_of_utf8(bytes) {
        Some(text) => text,
        None => {
            proof {
                reveal_strlit("");
            }
            ""
        },
    }
}

/// Whether `c` has the Unicode property White_Space.
pub fn is_whitespace_char(c: char) -> (b: bool)
    ensures
        b == is_whitespace(c),
{
    ('\u{9}' <= c && c <= '\u{d}') || c == ' ' || c == '\u{85}' || c == '\u{a0}' || c
        == '\u{1680}' || ('\u{2000}' <= c && c <= '\u{200a}') || c == '\u{2028}' || c
        == '\u{2029}' || c == '\u{202f}' || c == '\u{205f}' || c == '\u{3000}'
}

/// Whether `c` is one of the five ASCII blanks.
pub fn is_ascii_space_char(c: char) -> (b: bool)
    ensures
        b == is_ascii_space(c),
{
    c == ' ' || c == '\t' || c == '\n' || c == '\u{c}' || c == '\r'
}

/// The characters of `s`, one by one.
pub fn chars_of(s: &str) -> (v: Vec<char>)
    ensures
        v@ == s@,
{
    let mut v: Vec<char> = Vec::new();
    for c in it: s.chars()
        invariant
            v@ == it.seq().take(it.index() as int),
            it.seq() == s@,
    {
        v.push(c);
    }
    v
}

/// Whether two texts hold the same characters.
pub fn same_text(a: &str, b: &str) -> (r: bool)
    ensures
        r == (a@ == b@),
{
    let x = a.as_bytes();
    let y = b.as_bytes();
    if x.len() != y.len() {
        return false;
    }
    let mut i: usize = 0;
    while i < x.len()
        invariant
            i <= x.len(),
            x.len() == y.len(),
            x@ == a.spec_bytes(),
            y@ == b.spec_bytes(),
            forall|j: int| 0 <= j < i ==> x@[j] == y@[j],
        decreases x.len() - i,
    {
        if x[i] != y[i] {
            return false;
        }
        i += 1;
    }
    proof {
        assert(x@ =~= y@);
        encode_utf8_decode_utf8(a@);
        encode_utf8_decode_utf8(b@);
    }
    true
}

/// Where the first `x` stands in the window `[from, to)` of `cs`, or `to`
/// where the window holds none.
pub fn find_char(cs: &Vec<char>, from: usize, to: usize, x: char) -> (r: usize)
    requires
        from <= to <= cs.len(),
    ensures
        r == from + position(cs@.subrange(from as int, to as int), x),
        from <= r <= to,
{
    let mut i = from;
    while i < to && cs[i] != x
        invariant
            from <= i <= to <= cs.len(),
            forall|j: int| from <= j < i ==> cs@[j] != x,
        decreases to - i,
    {
        i += 1;
    }
    proof {
        let w = cs@.subrange(from as int, to as int);
        assert forall|j: int| 0 <= j < i - from implies #[trigger] w[j] != x by {
            assert(w[j] == cs@[from + j]);
        }
        lemma_position_is(w, x, i - from);
    }
    i
}

/// Where the first `x` stands in `bytes` at or after `from`, or the length
/// of `bytes` where none does.
pub fn find_byte(bytes: &[u8], from: usize, x: u8) -> (r: usize)
    requires
        from <= bytes.len(),
    ensures
        r == from + position(bytes@.skip(from as int), x),
        from <= r <= bytes.len(),
{
    let mut i = from;
    while i < bytes.len() && bytes[i] != x
        invariant
            from <= i <= bytes.len(),
            forall|j: int| from <= j < i ==> bytes@[j] != x,
        decreases bytes.len() - i,
    {
        i += 1;
    }
    proof {
        let w = bytes@.skip(from as int);
        assert forall|j: int| 0 <= j < i - from implies #[trigger] w[j] != x by {
            assert(w[j] == bytes@[from + j]);
        }
        lemma_position_is(w, x, i - from);
    }
    i
}

/// Cuts `s` at its first `d`.
pub fn split_once<'a>(s: &'a str, d: char) -> (r: Option<(&'a str, &'a str)>)
    ensures
        match r {
            Some((a, b)) => halves(s@, d) == Some((a@, b@)),
            None => halves(s@, d).is_none(),
        },
{
    let cs = chars_of(s);
    let n = cs.len();
    let p = find_char(&cs, 0, n, d);
    proof {
        assert(cs@.subrange(0, n as int) =~= s@);
    }
    if p < n {
        let a = s.substring_char(0, p);
        let b = s.substring_char(p + 1, n);
        proof {
            assert(s@.subrange(0, p as int) =~= s@.take(p as int));
            assert(s@.subrange(p + 1, n as int) =~= s@.skip(p + 1));
        }
        Some((a, b))
    } else {
        None
    }
}

/// Cuts `s` at every `d`.
pub fn split<'a>(s: &'a str, d: char) -> (r: Vec<&'a str>)
    ensures
        r.len() == pieces(s@, d).len(),
        forall|i: int| 0 <= i < r.len() ==> (#[trigger] r[i])@ == pieces(s@, d)[i],
{
    let cs = chars_of(s);
    let n = cs.len();
    let mut out: Vec<&'a str> = Vec::new();
    let mut start: usize = 0;
    let ghost mut done: Seq<Seq<char>> = Seq::empty();
    proof {
        assert(s@.skip(0) =~= s@);
        assert(done + pieces(s@, d) =~= pieces(s@, d));
    }
    loop
        invariant_except_break
            out.len() == done.len(),
            forall|i: int| 0 <= i < out.len() ==> (#[trigger] out[i])@ == done[i],
            done + pieces(s@.skip(start as int), d) == pieces(s@, d),
        invariant
            cs@ == s@,
            n == cs.len(),
            start <= n,
        ensures
            out.len() == pieces(s@, d).len(),
            forall|i: int| 0 <= i < out.len() ==> (#[trigger] out[i])@ == pieces(s@, d)[i],
        decreases n - start,
    {
        let e = find_char(&cs, start, n, d);
        let piece = s.substring_char(start, e);
        let ghost rest = s@.skip(start as int);
        proof {
            assert(cs@.subrange(start as int, n as int) =~= rest);
            assert(piece@ =~= rest.take(e - start));
        }
        out.push(piece);
        if e < n {
            proof {
                assert(rest.skip(e - start + 1) =~= s@.skip(e + 1));
                assert(done.push(piece@) + pieces(s@.skip(e + 1), d) =~= done + pieces(rest, d));
                done = done.push(piece@);
            }
            start = e + 1;
        } else {
            proof {
                assert(rest.take(e - start) =~= rest);
                assert(done.push(piece@) =~= done + pieces(rest, d));
                done = done.push(piece@);
            }
            break ;
        }
    }
    out
}

/// Removes leading and trailing whitespace.
pub fn trim<'a>(s: &'a str) -> (r: &'a str)
    ensures
        r@ == trimmed(s@),
{
    let cs = chars_of(s);
    let n = cs.len();
    let mut from: usize = 0;
    while from < n && is_whitespace_char(cs[from])
        invariant
            from <= n == cs.len(),
            forall|j: int| 0 <= j < from ==> is_whitespace(cs@[j]),
        decreases n - from,
    {
        from += 1;
    }
    let mut to: usize = n;
    while to > from && is_whitespace_char(cs[to - 1])
        invariant
            from <= to <= n == cs.len(),
            forall|j: int| to <= j < n ==> is_whitespace(cs@[j]),
        decreases to,
    {
        to -= 1;
    }
    proof {
        assert forall|j: int| 0 <= j < from implies (whitespace())(#[trigger] cs@[j]) by {}
        lemma_prefix_len_is(cs@, whitespace(), from as int);
        let t = cs@.skip(from as int);
        assert forall|j: int| t.len() - (n - to) <= j < t.len() implies (whitespace())(
            #[trigger] t[j],
        ) by {
            assert(t[j] == cs@[from + j]);
        }
        if n - to < t.len() {
            assert(t[t.len() - (n - to) - 1] == cs@[to - 1]);
        }
        lemma_suffix_len_is(t, whitespace(), n - to);
        assert(s@.subrange(from as int, to as int) =~= t.take(t.len() - (n - to)));
    }
    s.substring_char(from, to)
}

/// Takes the first word off `s`: the word, and what follows it.
pub fn next_word<'a>(s: &'a str) -> (r: (&'a str, &'a str))
    ensures
        r.0@ == first_word(s@),
        r.1@ == after_first_word(s@),
{
    let cs = chars_of(s);
    let n = cs.len();
    let mut from: usize = 0;
    while from < n && is_ascii_space_char(cs[from])
        invariant
            from <= n == cs.len(),
            forall|j: int| 0 <= j < from ==> is_ascii_space(cs@[j]),
        decreases n - from,
    {
        from += 1;
    }
    let mut to: usize = from;
    while to < n && !is_ascii_space_char(cs[to])
        invariant
            from <= to <= n == cs.len(),
            forall|j: int| from <= j < to ==> !is_ascii_space(cs@[j]),
        decreases n - to,
    {
        to += 1;
    }
    proof {
        assert forall|j: int| 0 <= j < from implies (ascii_space())(#[trigger] cs@[j]) by {}
        lemma_prefix_len_is(cs@, ascii_space(), from as int);
        let t = cs@.skip(from as int);
        assert forall|j: int| 0 <= j < to - from implies (ascii_visible())(#[trigger] t[j]) by {
            assert(t[j] == cs@[from + j]);
        }
        if to - from < t.len() {
            assert(t[to - from] == cs@[to as int]);
        }
        lemma_prefix_len_is(t, ascii_visible(), to - from);
        assert(s@.subrange(from as int, to as int) =~= t.take(to - from));
        assert(s@.subrange(to as int, n as int) =~= t.skip(to - from));
    }
    (s.substring_char(from, to), s.substring_char(to, n))
}

} // verus!
