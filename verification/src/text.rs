//! Character-level helpers shared by the command language and the buffers:
//! blanks, ASCII case folding, decimal numbers and tokens.

use vstd::prelude::*;

verus! {

/// The characters that separate tokens: the Unicode `White_Space` set.
pub open spec fn is_blank(c: char) -> bool {
    ||| ('\u{9}' <= c && c <= '\u{d}')
    ||| c == ' '
    ||| c == '\u{85}'
    ||| c == '\u{a0}'
    ||| c == '\u{1680}'
    ||| ('\u{2000}' <= c && c <= '\u{200a}')
    ||| c == '\u{2028}'
    ||| c == '\u{2029}'
    ||| c == '\u{202f}'
    ||| c == '\u{205f}'
    ||| c == '\u{3000}'
}

/// Tells whether `c` separates tokens.
pub fn blank(c: char) -> (r: bool)
    ensures
        r == is_blank(c),
{
    (c >= '\u{9}' && c <= '\u{d}') || c == ' ' || c == '\u{85}' || c == '\u{a0}' || c
        == '\u{1680}' || (c >= '\u{2000}' && c <= '\u{200a}') || c == '\u{2028}' || c
        == '\u{2029}' || c == '\u{202f}' || c == '\u{205f}' || c == '\u{3000}'
}

/// `c` with the letters `A` to `Z` folded to lower case; every other character is itself.
pub open spec fn lower(c: char) -> char {
    if 'A' <= c && c <= 'Z' {
        ((c as u8) + 32) as char
    } else {
        c
    }
}

/// Folds one character to lower case.
pub fn to_lower(c: char) -> (r: char)
    ensures
        r == lower(c),
{
    if c >= 'A' && c <= 'Z' {
        ((c as u8) + 32u8) as char
    } else {
        c
    }
}

/// `s` with every character folded to lower case.
pub open spec fn lowered(s: Seq<char>) -> Seq<char> {
    Seq::new(s.len(), |i: int| lower(s[i]))
}

/// Number of blanks at the front of `s`.
pub open spec fn leading_blanks(s: Seq<char>) -> nat
    decreases s.len(),
{
    if s.len() > 0 && is_blank(s[0]) {
        1 + leading_blanks(s.drop_first())
    } else {
        0
    }
}

/// Number of blanks at the back of `s`.
pub open spec fn trailing_blanks(s: Seq<char>) -> nat
    decreases s.len(),
{
    if s.len() > 0 && is_blank(s.last()) {
        1 + trailing_blanks(s.drop_last())
    } else {
        0
    }
}

/// `s` without the blanks at its two ends.
pub open spec fn trimmed(s: Seq<char>) -> Seq<char> {
    let rest = s.skip(leading_blanks(s) as int);
    rest.take(rest.len() - trailing_blanks(rest))
}

/// If the first `n` characters of `s` are blank and the next one is not (or
/// there is none), `n` is the number of leading blanks.
pub proof fn lemma_leading_blanks_is(s: Seq<char>, n: int)
    requires
        0 <= n <= s.len(),
        forall|i: int| 0 <= i < n ==> is_blank(#[trigger] s[i]),
        n < s.len() ==> !is_blank(s[n]),
    ensures
        leading_blanks(s) == n,
    decreases s.len(),
{
    if n > 0 {
        let t = s.drop_first();
        assert(is_blank(s[0]));
        assert forall|i: int| 0 <= i < n - 1 implies is_blank(#[trigger] t[i]) by {
            assert(t[i] == s[i + 1]);
        }
        if n - 1 < t.len() {
            assert(t[n - 1] == s[n]);
        }
        lemma_leading_blanks_is(t, n - 1);
    }
}

/// If the last `n` characters of `s` are blank and the one before them is not
/// (or there is none), `n` is the number of trailing blanks.
pub proof fn lemma_trailing_blanks_is(s: Seq<char>, n: int)
    requires
        0 <= n <= s.len(),
        forall|i: int| s.len() - n <= i < s.len() ==> is_blank(#[trigger] s[i]),
        n < s.len() ==> !is_blank(s[s.len() - n - 1]),
    ensures
        trailing_blanks(s) == n,
    decreases s.len(),
{
    if n > 0 {
        let t = s.drop_last();
        assert(is_blank(s[s.len() - 1]));
        assert forall|i: int| t.len() - (n - 1) <= i < t.len() implies is_blank(#[trigger] t[i]) by {
            assert(t[i] == s[i]);
        }
        if n - 1 < t.len() {
            assert(t[t.len() - (n - 1) - 1] == s[s.len() - n - 1]);
        }
        lemma_trailing_blanks_is(t, n - 1);
    }
}

/// The characters of `s`, in order.
pub fn chars_of(s: &str) -> (r: Vec<char>)
    ensures
        r@ == s@,
{
    let mut v: Vec<char> = Vec::new();
    for c in it: s.chars()
        invariant
            v@ == it.seq().take(it.index() as int),
    {
        v.push(c);
    }
    v
}

/// Appends one character to a string.
///
/// Trusted: `String::push` of std, which appends the given character to the
/// end of the string and leaves the rest as it was.
#[verifier::external_body]
pub(crate) fn push_char(s: &mut String, c: char)
    ensures
        final(s)@ == old(s)@.push(c),
{
    s.push(c)
}

/// The string made of the characters `v[from..to]`.
pub fn string_of(v: &Vec<char>, from: usize, to: usize) -> (r: String)
    requires
        from <= to <= v.len(),
    ensures
        r@ == v@.subrange(from as int, to as int),
{
    let mut s: String = String::new();
    let mut i: usize = from;
    while i < to
        invariant
            from <= i <= to <= v.len(),
            s@ == v@.subrange(from as int, i as int),
        decreases to - i,
    {
        push_char(&mut s, v[i]);
        i += 1;
        assert(v@.subrange(from as int, i as int) == v@.subrange(from as int, i - 1).push(
            v@[i - 1],
        ));
    }
    s
}

/// Tells whether two strings hold the same characters.
pub fn same_text(a: &str, b: &str) -> (r: bool)
    ensures
        r == (a@ == b@),
{
    let x: String = a.to_owned();
    let y: String = b.to_owned();
    x == y
}

/// The character of the decimal digit `d`.
pub open spec fn digit(d: nat) -> char {
    (48 + d) as char
}

/// The decimal numeral of `n`, without leading zeros.
pub open spec fn decimal(n: nat) -> Seq<char>
    decreases n,
{
    if n < 10 {
        seq![digit(n)]
    } else {
        decimal(n / 10).push(digit(n % 10))
    }
}

/// `s` with blanks put before it until it is `width` characters long; an
/// `s` that is as long or longer is left as it is.
pub open spec fn right_aligned(s: Seq<char>, width: nat) -> Seq<char> {
    if s.len() >= width {
        s
    } else {
        Seq::new((width - s.len()) as nat, |i: int| ' ') + s
    }
}

/// The characters of the decimal numeral of `n`.
pub fn decimal_chars(n: usize) -> (r: Vec<char>)
    ensures
        r@ == decimal(n as nat),
    decreases n,
{
    if n < 10 {
        let mut v: Vec<char> = Vec::new();
        v.push((48u8 + (n as u8)) as char);
        assert(v@ =~= seq![digit(n as nat)]);
        v
    } else {
        let mut v: Vec<char> = decimal_chars(n / 10);
        v.push((48u8 + ((n % 10) as u8)) as char);
        v
    }
}

/// The value of the decimal digit `c`, if it is one.
pub open spec fn digit_value(c: char) -> Option<nat> {
    if '0' <= c && c <= '9' {
        Some((c as nat - 48) as nat)
    } else {
        None
    }
}

/// The number that the digits `s` denote, read as a decimal numeral; a
/// character that is no digit counts as zero.
pub open spec fn digits_value(s: Seq<char>) -> nat
    decreases s.len(),
{
    if s.len() == 0 {
        0
    } else {
        digits_value(s.drop_last()) * 10 + match digit_value(s.last()) {
            Some(d) => d,
            None => 0,
        }
    }
}

/// Every character of `s` is a decimal digit.
pub open spec fn all_digits(s: Seq<char>) -> bool {
    forall|i: int| 0 <= i < s.len() ==> digit_value(#[trigger] s[i]) is Some
}

/// `s` without the `+` in front of it, if there is one.
pub open spec fn unsigned_part(s: Seq<char>) -> Seq<char> {
    if s.len() > 0 && s[0] == '+' {
        s.drop_first()
    } else {
        s
    }
}

/// The number that `s` denotes: one or more decimal digits, with an
/// optional `+` in front, whose value fits in `usize`. Anything else denotes
/// no number.
pub open spec fn number_of(s: Seq<char>) -> Option<usize> {
    let body = unsigned_part(s);
    if body.len() > 0 && all_digits(body) && digits_value(body) <= usize::MAX {
        Some(digits_value(body) as usize)
    } else {
        None
    }
}

/// The value of a numeral never falls when digits are added behind it.
pub proof fn lemma_digits_value_grows(s: Seq<char>, i: int)
    requires
        0 <= i <= s.len(),
    ensures
        digits_value(s.take(i)) <= digits_value(s),
    decreases s.len() - i,
{
    if i < s.len() {
        lemma_digits_value_grows(s, i + 1);
        assert(s.take(i + 1).drop_last() =~= s.take(i));
    } else {
        assert(s.take(i) =~= s);
    }
}

/// Reads a number: see `number_of`.
pub fn parse_number(s: &Vec<char>) -> (r: Option<usize>)
    ensures
        r == number_of(s@),
{
    let n: usize = s.len();
    let first: usize = if n > 0 && s[0] == '+' {
        1
    } else {
        0
    };
    let ghost body = unsigned_part(s@);
    assert(body =~= s@.skip(first as int));
    if first == n {
        return None;
    }
    let mut value: usize = 0;
    let mut i: usize = first;
    assert(body.take(0) =~= Seq::<char>::empty());
    while i < n
        invariant
            first <= i <= n,
            n == s@.len(),
            body == s@.skip(first as int),
            body == unsigned_part(s@),
            all_digits(body.take(i - first)),
            value == digits_value(body.take(i - first)),
        decreases n - i,
    {
        let c: char = s[i];
        let ghost k = i - first;
        proof {
            assert(body.take(k + 1).drop_last() =~= body.take(k));
            assert(body.take(k + 1).last() == c);
            lemma_digits_value_grows(body, k + 1);
        }
        if !(c >= '0' && c <= '9') {
            assert(digit_value(body[k]) is None);
            return None;
        }
        let d: usize = ((c as u8) - 48u8) as usize;
        assert(digits_value(body.take(k + 1)) == value * 10 + d);
        let next: usize = match value.checked_mul(10) {
            Some(tens) => match tens.checked_add(d) {
                Some(sum) => sum,
                None => {
                    return None;
                },
            },
            None => {
                return None;
            },
        };
        value = next;
        i += 1;
        proof {
            assert forall|j: int| 0 <= j < body.take(k + 1).len() implies digit_value(
                #[trigger] body.take(k + 1)[j],
            ) is Some by {
                if j < k {
                    assert(body.take(k + 1)[j] == body.take(k)[j]);
                }
            }
        }
    }
    assert(body.take(n - first) =~= body);
    Some(value)
}

/// Number of characters at the front of `s` that are not blank.
pub open spec fn word_len(s: Seq<char>) -> nat
    decreases s.len(),
{
    if s.len() > 0 && !is_blank(s[0]) {
        1 + word_len(s.drop_first())
    } else {
        0
    }
}

/// The tokens of `s`: its maximal stretches of characters that are not
/// blank, in order.
pub open spec fn tokens(s: Seq<char>) -> Seq<Seq<char>>
    decreases s.len(),
    via tokens_decreases
{
    if s.len() == 0 {
        Seq::empty()
    } else if is_blank(s[0]) {
        tokens(s.drop_first())
    } else {
        seq![s.take(word_len(s) as int)] + tokens(s.skip(word_len(s) as int))
    }
}

#[via_fn]
proof fn tokens_decreases(s: Seq<char>) {
    lemma_word_len(s);
}

/// The first word is not longer than the text, and not empty where the
/// text starts with a character that is not blank.
pub proof fn lemma_word_len(s: Seq<char>)
    ensures
        word_len(s) <= s.len(),
        s.len() > 0 && !is_blank(s[0]) ==> word_len(s) >= 1,
    decreases s.len(),
{
    if s.len() > 0 && !is_blank(s[0]) {
        lemma_word_len(s.drop_first());
    }
}

/// If the first `n` characters of `s` are not blank and the next one is (or
/// there is none), the first word of `s` has `n` characters.
pub proof fn lemma_word_len_is(s: Seq<char>, n: int)
    requires
        0 <= n <= s.len(),
        forall|i: int| 0 <= i < n ==> !is_blank(#[trigger] s[i]),
        n < s.len() ==> is_blank(s[n]),
    ensures
        word_len(s) == n,
    decreases s.len(),
{
    if n > 0 {
        let t = s.drop_first();
        assert(!is_blank(s[0]));
        assert forall|i: int| 0 <= i < n - 1 implies !is_blank(#[trigger] t[i]) by {
            assert(t[i] == s[i + 1]);
        }
        if n - 1 < t.len() {
            assert(t[n - 1] == s[n]);
        }
        lemma_word_len_is(t, n - 1);
    }
}

/// The views of a list of character vectors.
pub open spec fn words_view(words: Seq<Vec<char>>) -> Seq<Seq<char>> {
    Seq::new(words.len(), |i: int| words[i]@)
}

/// Cuts `s` into its tokens.
pub fn tokenize(s: &Vec<char>) -> (r: Vec<Vec<char>>)
    ensures
        words_view(r@) == tokens(s@),
{
    let n: usize = s.len();
    let mut out: Vec<Vec<char>> = Vec::new();
    let mut i: usize = 0;
    assert(s@.skip(0) =~= s@);
    assert(words_view(out@) + tokens(s@.skip(0)) =~= tokens(s@));
    while i < n
        invariant
            0 <= i <= n,
            n == s@.len(),
            words_view(out@) + tokens(s@.skip(i as int)) == tokens(s@),
        decreases n - i,
    {
        let ghost rest = s@.skip(i as int);
        if blank(s[i]) {
            proof {
                assert(rest[0] == s@[i as int]);
                assert(rest.drop_first() =~= s@.skip(i + 1));
            }
            i += 1;
        } else {
            let start: usize = i;
            let mut word: Vec<char> = Vec::new();
            while i < n && !blank(s[i])
                invariant
                    start <= i <= n,
                    n == s@.len(),
                    word@ == s@.subrange(start as int, i as int),
                    forall|j: int| start <= j < i ==> !is_blank(#[trigger] s@[j]),
                decreases n - i,
            {
                word.push(s[i]);
                i += 1;
                assert(word@ =~= s@.subrange(start as int, i as int));
            }
            proof {
                let len = i - start;
                assert forall|j: int| 0 <= j < len implies !is_blank(#[trigger] rest[j]) by {
                    assert(rest[j] == s@[start + j]);
                }
                if len < rest.len() {
                    assert(rest[len] == s@[i as int]);
                }
                lemma_word_len_is(rest, len);
                assert(rest[0] == s@[start as int]);
                assert(rest.take(len) =~= word@);
                assert(rest.skip(len) =~= s@.skip(i as int));
            }
            let ghost old_out = out@;
            out.push(word);
            proof {
                assert(words_view(out@) =~= words_view(old_out).push(word@));
                assert(words_view(out@) + tokens(s@.skip(i as int)) =~= words_view(old_out) + (
                seq![word@] + tokens(s@.skip(i as int))));
            }
        }
    }
    assert(s@.skip(n as int) =~= Seq::<char>::empty());
    assert(words_view(out@) + tokens(s@.skip(n as int)) =~= words_view(out@));
    out
}

/// Tells whether two character vectors hold the same characters.
pub fn same_chars(a: &Vec<char>, b: &Vec<char>) -> (r: bool)
    ensures
        r == (a@ == b@),
{
    if a.len() != b.len() {
        return false;
    }
    let mut i: usize = 0;
    while i < a.len()
        invariant
            0 <= i <= a.len(),
            a.len() == b.len(),
            forall|j: int| 0 <= j < i ==> a@[j] == b@[j],
        decreases a.len() - i,
    {
        if a[i] != b[i] {
            return false;
        }
        i += 1;
    }
    assert(a@ =~= b@);
    true
}

/// Where `s` begins and ends when the blanks at its two ends are left
/// out.
pub fn trim_bounds(s: &Vec<char>) -> (r: (usize, usize))
    ensures
        r.0 <= r.1 <= s.len(),
        trimmed(s@) == s@.subrange(r.0 as int, r.1 as int),
{
    let n: usize = s.len();
    let mut start: usize = 0;
    while start < n && blank(s[start])
        invariant
            0 <= start <= n,
            n == s@.len(),
            forall|i: int| 0 <= i < start ==> is_blank(#[trigger] s@[i]),
        decreases n - start,
    {
        start += 1;
    }
    proof {
        lemma_leading_blanks_is(s@, start as int);
    }
    let ghost rest = s@.skip(start as int);
    let mut end: usize = n;
    while end > start && blank(s[end - 1])
        invariant
            start <= end <= n,
            n == s@.len(),
            forall|i: int| end <= i < n ==> is_blank(#[trigger] s@[i]),
        decreases end,
    {
        end -= 1;
    }
    proof {
        assert forall|i: int| rest.len() - (n - end) <= i < rest.len() implies is_blank(
            #[trigger] rest[i],
        ) by {
            assert(rest[i] == s@[start + i]);
        }
        if n - end < rest.len() {
            assert(rest[rest.len() - (n - end) - 1] == s@[end - 1]);
        }
        lemma_trailing_blanks_is(rest, n - end);
        assert(trimmed(s@) =~= s@.subrange(start as int, end as int));
    }
    (start, end)
}

/// `s` without the blanks at its ends and folded to lower case.
pub fn trim_lower(s: &Vec<char>) -> (r: Vec<char>)
    ensures
        r@ == lowered(trimmed(s@)),
{
    let (start, end) = trim_bounds(s);
    let mut out: Vec<char> = Vec::new();
    let mut i: usize = start;
    while i < end
        invariant
            start <= i <= end <= s.len(),
            out@ == lowered(s@.subrange(start as int, i as int)),
        decreases end - i,
    {
        out.push(to_lower(s[i]));
        i += 1;
        assert(out@ =~= lowered(s@.subrange(start as int, i as int)));
    }
    out
}

/// `needle` stands in `hay` at position `i`.
pub open spec fn occurs_at(hay: Seq<char>, needle: Seq<char>, i: int) -> bool {
    &&& 0 <= i
    &&& i + needle.len() <= hay.len()
    &&& hay.subrange(i, i + needle.len()) == needle
}

/// The first position at or after `from` at which `needle` stands in
/// `hay`, if there is one.
pub open spec fn position_from(hay: Seq<char>, needle: Seq<char>, from: int) -> Option<int>
    decreases hay.len() + 1 - from,
{
    if from < 0 || from + needle.len() > hay.len() {
        None
    } else if occurs_at(hay, needle, from) {
        Some(from)
    } else {
        position_from(hay, needle, from + 1)
    }
}

/// The first position at which `needle` stands in `hay`, if there is one.
/// The empty text stands at position zero of every text.
pub open spec fn position(hay: Seq<char>, needle: Seq<char>) -> Option<int> {
    position_from(hay, needle, 0)
}

/// What `position_from` finds is the first occurrence: the needle stands
/// there and nowhere between `from` and there; and where it finds nothing,
/// the needle stands nowhere from `from` on.
pub proof fn lemma_position_from(hay: Seq<char>, needle: Seq<char>, from: int)
    requires
        0 <= from,
    ensures
        match position_from(hay, needle, from) {
            Some(p) => {
                &&& from <= p
                &&& occurs_at(hay, needle, p)
                &&& forall|i: int| from <= i < p ==> !occurs_at(hay, needle, i)
            },
            None => forall|i: int| from <= i ==> !occurs_at(hay, needle, i),
        },
    decreases hay.len() + 1 - from,
{
    if from + needle.len() > hay.len() {
    } else if occurs_at(hay, needle, from) {
    } else {
        lemma_position_from(hay, needle, from + 1);
    }
}

/// Tells whether `needle` stands in `hay` at position `i`.
pub fn stands_at(hay: &Vec<char>, needle: &Vec<char>, i: usize) -> (r: bool)
    ensures
        r == occurs_at(hay@, needle@, i as int),
{
    if needle.len() > hay.len() || i > hay.len() - needle.len() {
        return false;
    }
    let mut k: usize = 0;
    while k < needle.len()
        invariant
            0 <= k <= needle.len(),
            i + needle.len() <= hay.len(),
            forall|j: int| 0 <= j < k ==> hay@[i + j] == needle@[j],
        decreases needle.len() - k,
    {
        if hay[i + k] != needle[k] {
            assert(hay@.subrange(i as int, i + needle.len())[k as int] != needle@[k as int]);
            return false;
        }
        k += 1;
    }
    assert(hay@.subrange(i as int, i + needle.len()) =~= needle@);
    true
}

/// The first position at or after `from` at which `needle` stands in
/// `hay`.
pub fn find_from(hay: &Vec<char>, needle: &Vec<char>, from: usize) -> (r: Option<usize>)
    ensures
        match r {
            Some(p) => position_from(hay@, needle@, from as int) == Some(p as int),
            None => position_from(hay@, needle@, from as int) is None,
        },
{
    if needle.len() > hay.len() || from > hay.len() - needle.len() {
        return None;
    }
    let last: usize = hay.len() - needle.len();
    let mut i: usize = from;
    while i <= last
        invariant
            from <= i <= last + 1,
            last == hay.len() - needle.len(),
            position_from(hay@, needle@, from as int) == position_from(hay@, needle@, i as int),
        decreases last + 1 - i,
    {
        if stands_at(hay, needle, i) {
            return Some(i);
        }
        if i == last {
            assert(position_from(hay@, needle@, i + 1) is None);
            return None;
        }
        i += 1;
    }
    None
}

/// The stretches of `s` between the occurrences of `sep`, the empty ones
/// too: one more than there are occurrences.
pub open spec fn segments(s: Seq<char>, sep: char) -> Seq<Seq<char>>
    decreases s.len(),
{
    if s.len() == 0 {
        seq![Seq::<char>::empty()]
    } else if s.last() == sep {
        segments(s.drop_last(), sep).push(Seq::<char>::empty())
    } else {
        let before = segments(s.drop_last(), sep);
        before.update(before.len() - 1, before.last().push(s.last()))
    }
}

/// Every text has at least one segment.
pub proof fn lemma_segments_len(s: Seq<char>, sep: char)
    ensures
        segments(s, sep).len() >= 1,
    decreases s.len(),
{
    if s.len() > 0 {
        lemma_segments_len(s.drop_last(), sep);
    }
}

/// The segments of `s` without the last one where that is empty: a
/// separator at the very end closes the last segment and opens no further
/// one.
pub open spec fn terminated(s: Seq<char>, sep: char) -> Seq<Seq<char>> {
    let segs = segments(s, sep);
    if segs.last().len() == 0 {
        segs.drop_last()
    } else {
        segs
    }
}

/// Cuts `s` at every `sep`.
pub fn split(s: &Vec<char>, sep: char) -> (r: Vec<Vec<char>>)
    ensures
        words_view(r@) == segments(s@, sep),
{
    let mut done: Vec<Vec<char>> = Vec::new();
    let mut current: Vec<char> = Vec::new();
    let mut i: usize = 0;
    assert(s@.take(0) =~= Seq::<char>::empty());
    assert(words_view(done@).push(current@) =~= segments(s@.take(0), sep));
    while i < s.len()
        invariant
            0 <= i <= s.len(),
            words_view(done@).push(current@) == segments(s@.take(i as int), sep),
        decreases s.len() - i,
    {
        let ghost before = segments(s@.take(i as int), sep);
        let ghost old_done = words_view(done@);
        let ghost old_current = current@;
        proof {
            assert(s@.take(i + 1).drop_last() =~= s@.take(i as int));
            assert(s@.take(i + 1).last() == s@[i as int]);
            assert(before.last() == old_current);
            assert(before.len() == old_done.len() + 1);
        }
        if s[i] == sep {
            done.push(current);
            current = Vec::new();
            proof {
                assert(words_view(done@) =~= before);
            }
        } else {
            current.push(s[i]);
            proof {
                assert(words_view(done@).push(current@) =~= before.update(
                    before.len() - 1,
                    before.last().push(s@[i as int]),
                ));
            }
        }
        i += 1;
    }
    assert(s@.take(i as int) =~= s@);
    let ghost old_done = words_view(done@);
    done.push(current);
    assert(words_view(done@) =~= old_done.push(current@));
    done
}

/// Searching in a text from position `from` on is searching in what is
/// left of the text when its first `from` characters are taken away.
pub proof fn lemma_position_skip(hay: Seq<char>, needle: Seq<char>, from: int)
    requires
        0 <= from <= hay.len(),
    ensures
        position(hay.skip(from), needle) == (match position_from(hay, needle, from) {
            Some(p) => Some(p - from),
            None => None,
        }),
{
    lemma_position_shift(hay, needle, from, 0);
}

/// Searching from position `j` in what is left of a text without its first
/// `k` characters is searching from position `j + k` in the text.
pub proof fn lemma_position_shift(hay: Seq<char>, needle: Seq<char>, k: int, j: int)
    requires
        0 <= k <= hay.len(),
        0 <= j,
    ensures
        position_from(hay.skip(k), needle, j) == (match position_from(hay, needle, j + k) {
            Some(p) => Some(p - k),
            None => None,
        }),
    decreases hay.len() + 1 - (j + k),
{
    let rest = hay.skip(k);
    if j + needle.len() > rest.len() {
    } else {
        assert(rest.subrange(j, j + needle.len()) =~= hay.subrange(j + k, j + k + needle.len()));
        if occurs_at(rest, needle, j) {
        } else {
            lemma_position_shift(hay, needle, k, j + 1);
        }
    }
}

} // verus!
