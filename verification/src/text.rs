//! Text as sequences of characters: comparison, prefixes, words, decimal numbers.
//!
//! Every contract here speaks of a string by its view, a `Seq<char>`.

use vstd::prelude::*;
use vstd::std_specs::iter::IteratorSpec;

verus! {

/// Whether `c` is white space: whether it has the Unicode property White_Space. These
/// are the space, the controls from tab to carriage return, next line, the no-break
/// space, the Ogham space mark, the spaces from en quad to hair space, the line and the
/// paragraph separator, the narrow no-break space, the medium mathematical space and
/// the ideographic space.
pub open spec fn white_space(c: char) -> bool {
    let n = c as u32;
    ||| 0x09 <= n <= 0x0d
    ||| n == 0x20
    ||| n == 0x85
    ||| n == 0xa0
    ||| n == 0x1680
    ||| 0x2000 <= n <= 0x200a
    ||| n == 0x2028
    ||| n == 0x2029
    ||| n == 0x202f
    ||| n == 0x205f
    ||| n == 0x3000
}

/// `char::is_whitespace` is taken on trust to say whether the character has the
/// property White_Space, which `white_space` writes out.
pub assume_specification[ char::is_whitespace ](c: char) -> (b: bool)
    ensures
        b == white_space(c),
;

/// `String::push` is taken on trust to append the one character at the end and to leave
/// the rest as it was.
pub assume_specification[ String::push ](s: &mut String, c: char)
    ensures
        final(s)@ == old(s)@.push(c),
;

/// The views of a sequence of strings, in order.
pub open spec fn texts(v: Seq<String>) -> Seq<Seq<char>> {
    Seq::new(v.len(), |i: int| v[i]@)
}

/// The views of a sequence with one more string are the views with one more view.
pub proof fn lemma_texts_push(v: Seq<String>, s: String)
    ensures
        texts(v.push(s)) == texts(v).push(s@),
{
}

/// The list that holds `text` and nothing else.
pub fn single(text: String) -> (out: Vec<String>)
    ensures
        out@.len() == 1,
        texts(out@) == seq![text@],
{
    let mut out: Vec<String> = Vec::new();
    out.push(text);
    out
}

/// The characters of `s`, one by one.
pub fn chars_of(s: &str) -> (out: Vec<char>)
    ensures
        out@ == s@,
{
    let mut out: Vec<char> = Vec::new();
    for c in it: s.chars()
        invariant
            it.seq() == s@,
            out@ == s@.take(it.index()),
    {
        out.push(c);
    }
    out
}

/// The string made of `chars[from..to]`.
pub fn string_of(chars: &Vec<char>, from: usize, to: usize) -> (out: String)
    requires
        from <= to <= chars.len(),
    ensures
        out@ == chars@.subrange(from as int, to as int),
{
    let mut out = String::new();
    let mut i: usize = from;
    while i < to
        invariant
            from <= i <= to <= chars.len(),
            out@ == chars@.subrange(from as int, i as int),
        decreases to - i,
    {
        out.push(chars[i]);
        i = i + 1;
    }
    out
}

/// Whether two strings hold the same characters.
pub fn same_text(a: &str, b: &str) -> (r: bool)
    ensures
        r == (a@ == b@),
{
    let mut ia = a.chars();
    let mut ib = b.chars();
    let ghost mut k: int = 0;
    loop
        invariant
            0 <= k <= a@.len(),
            k <= b@.len(),
            ia.remaining() == a@.skip(k),
            ib.remaining() == b@.skip(k),
            a@.take(k) == b@.take(k),
        decreases a@.len() - k,
    {
        let x = ia.next();
        let y = ib.next();
        match (x, y) {
            (Some(c), Some(d)) => {
                if c != d {
                    return false;
                }
                proof {
                    k = k + 1;
                }
            },
            (None, None) => {
                proof {
                    assert(a@.take(k) =~= a@);
                    assert(b@.take(k) =~= b@);
                }
                return true;
            },
            _ => {
                return false;
            },
        }
    }
}

/// Whether `s` begins with `prefix`.
pub fn starts_with(s: &str, prefix: &str) -> (r: bool)
    ensures
        r == prefix@.is_prefix_of(s@),
{
    let mut is = s.chars();
    let mut ip = prefix.chars();
    let ghost mut k: int = 0;
    loop
        invariant
            0 <= k <= s@.len(),
            k <= prefix@.len(),
            is.remaining() == s@.skip(k),
            ip.remaining() == prefix@.skip(k),
            s@.take(k) == prefix@.take(k),
        decreases prefix@.len() - k,
    {
        match ip.next() {
            None => {
                return true;
            },
            Some(d) => {
                match is.next() {
                    None => {
                        return false;
                    },
                    Some(c) => {
                        if c != d {
                            return false;
                        }
                        proof {
                            k = k + 1;
                        }
                    },
                }
            },
        }
    }
}

/// Of each character of `s`, whether it is white space.
pub open spec fn spaces(s: Seq<char>) -> Seq<bool> {
    Seq::new(s.len(), |i: int| white_space(s[i]))
}

/// How many flags at the start of `space` are not set: the length of the word that
/// begins there.
pub open spec fn word_len(space: Seq<bool>) -> nat
    decreases space.len(),
{
    if space.len() > 0 && !space[0] {
        1 + word_len(space.drop_first())
    } else {
        0
    }
}

/// The words of `s`, where `space` says of each character whether it parts words:
/// the maximal runs of characters that do not, in order.
pub open spec fn words_by(s: Seq<char>, space: Seq<bool>) -> Seq<Seq<char>>
    decreases s.len(),
{
    if s.len() == 0 || space.len() != s.len() {
        Seq::empty()
    } else if space[0] {
        words_by(s.drop_first(), space.drop_first())
    } else {
        let n = word_len(space) as int;
        if 0 < n <= s.len() {
            seq![s.take(n)] + words_by(s.skip(n), space.skip(n))
        } else {
            Seq::empty()
        }
    }
}

/// The words of `s`: its maximal runs of characters that are no white space, in order.
pub open spec fn words(s: Seq<char>) -> Seq<Seq<char>> {
    words_by(s, spaces(s))
}

/// A word is no longer than the text it starts in, and a space or the end follows it.
pub proof fn lemma_word_len(space: Seq<bool>)
    ensures
        word_len(space) <= space.len(),
        forall|i: int| 0 <= i < word_len(space) ==> !#[trigger] space[i],
        word_len(space) < space.len() ==> space[word_len(space) as int],
        space.len() > 0 && !space[0] ==> word_len(space) > 0,
    decreases space.len(),
{
    if space.len() > 0 && !space[0] {
        let t = space.drop_first();
        lemma_word_len(t);
        assert forall|i: int| 0 <= i < word_len(space) implies !#[trigger] space[i] by {
            if i > 0 {
                assert(space[i] == t[i - 1]);
            }
        }
    }
}

/// Whether no character of `s` is white space.
pub open spec fn unbroken(s: Seq<char>) -> bool {
    forall|i: int| 0 <= i < s.len() ==> !white_space(#[trigger] s[i])
}

/// A word that stands at the start of a text, with white space or the end behind it,
/// is as long as it is.
proof fn lemma_word_at_start(word: Seq<char>, rest: Seq<char>)
    requires
        unbroken(word),
        rest.len() == 0 || white_space(rest[0]),
    ensures
        word_len(spaces(word + rest)) == word.len(),
    decreases word.len(),
{
    let s = word + rest;
    if word.len() == 0 {
        if rest.len() > 0 {
            assert(s[0] == rest[0]);
        }
    } else {
        assert(s[0] == word[0]);
        assert(spaces(s).drop_first() =~= spaces(word.drop_first() + rest));
        lemma_word_at_start(word.drop_first(), rest);
    }
}

/// How the words of a text are read off. White space at the start counts for nothing;
/// a text without white space that is not empty is one word; and a word at the start,
/// with white space or the end behind it, is the first word, before the words of what
/// follows it.
pub proof fn lemma_words(word: Seq<char>, rest: Seq<char>)
    ensures
        words(Seq::empty()) == Seq::<Seq<char>>::empty(),
        rest.len() > 0 && white_space(rest[0]) ==> words(rest) == words(rest.drop_first()),
        word.len() > 0 && unbroken(word) && (rest.len() == 0 || white_space(rest[0])) ==> words(
            word + rest,
        ) == seq![word] + words(rest),
        word.len() > 0 && unbroken(word) ==> words(word) == seq![word],
{
    if rest.len() > 0 && white_space(rest[0]) {
        assert(spaces(rest).drop_first() =~= spaces(rest.drop_first()));
    }
    if word.len() > 0 && unbroken(word) {
        if rest.len() == 0 || white_space(rest[0]) {
            let s = word + rest;
            let n = word.len() as int;
            lemma_word_at_start(word, rest);
            assert(s[0] == word[0]);
            assert(s.take(n) =~= word);
            assert(s.skip(n) =~= rest);
            assert(spaces(s).skip(n) =~= spaces(rest));
        }
        let none = Seq::<char>::empty();
        let n = word.len() as int;
        lemma_word_at_start(word, none);
        assert(word + none =~= word);
        assert(!spaces(word)[0]);
        assert(word.take(n) =~= word);
        assert(word.skip(n) =~= none);
        assert(words_by(word.skip(n), spaces(word).skip(n)) =~= Seq::<Seq<char>>::empty());
        assert(seq![word] + Seq::<Seq<char>>::empty() =~= seq![word]);
    }
}

/// Of each character of `chars`, whether it is white space.
pub fn classify(chars: &Vec<char>) -> (space: Vec<bool>)
    ensures
        space@ == spaces(chars@),
{
    let mut space: Vec<bool> = Vec::new();
    let mut i: usize = 0;
    while i < chars.len()
        invariant
            i <= chars.len(),
            space@.len() == i,
            forall|j: int| 0 <= j < i ==> space@[j] == white_space(chars@[j]),
        decreases chars.len() - i,
    {
        space.push(chars[i].is_whitespace());
        i = i + 1;
    }
    space
}

/// The words of `chars`, where `space` says of each character whether it parts words.
pub fn split_at_spaces(chars: &Vec<char>, space: &Vec<bool>) -> (out: Vec<String>)
    requires
        space.len() == chars.len(),
    ensures
        texts(out@) == words_by(chars@, space@),
{
    let n = chars.len();
    let mut out: Vec<String> = Vec::new();
    let mut i: usize = 0;
    assert(chars@.skip(0) =~= chars@);
    assert(space@.skip(0) =~= space@);
    while i < n
        invariant
            i <= n,
            n == chars@.len(),
            n == space@.len(),
            texts(out@) + words_by(chars@.skip(i as int), space@.skip(i as int)) == words_by(
                chars@,
                space@,
            ),
        decreases n - i,
    {
        let ghost rest = chars@.skip(i as int);
        let ghost flags = space@.skip(i as int);
        if space[i] {
            assert(rest.drop_first() =~= chars@.skip(i + 1));
            assert(flags.drop_first() =~= space@.skip(i + 1));
            i = i + 1;
        } else {
            let start = i;
            proof {
                lemma_word_len(flags);
            }
            while i < n && !space[i]
                invariant
                    start <= i <= n,
                    n == space@.len(),
                    flags == space@.skip(start as int),
                    i - start <= word_len(flags) <= flags.len(),
                    forall|j: int| 0 <= j < word_len(flags) ==> !#[trigger] flags[j],
                    word_len(flags) < flags.len() ==> flags[word_len(flags) as int],
                decreases n - i,
            {
                i = i + 1;
            }
            proof {
                if i < n {
                    assert(flags[i - start] == space@[i as int]);
                }
                assert(rest.take(i - start) =~= chars@.subrange(start as int, i as int));
                assert(rest.skip(i - start) =~= chars@.skip(i as int));
                assert(flags.skip(i - start) =~= space@.skip(i as int));
            }
            let word = string_of(chars, start, i);
            out.push(word);
        }
    }
    out
}

/// The words of `s`, split at white space as `str::split_whitespace` splits.
pub fn split_whitespace(s: &str) -> (out: Vec<String>)
    ensures
        texts(out@) == words(s@),
{
    let chars = chars_of(s);
    let space = classify(&chars);
    split_at_spaces(&chars, &space)
}

/// `parts` written one after the other with `sep` between each two.
pub open spec fn joined(parts: Seq<Seq<char>>, sep: Seq<char>) -> Seq<char>
    decreases parts.len(),
{
    if parts.len() == 0 {
        Seq::empty()
    } else if parts.len() == 1 {
        parts[0]
    } else {
        joined(parts.drop_last(), sep) + sep + parts.last()
    }
}

/// The strings `parts[from..]` written one after the other with `sep` between each two.
pub fn join_from(parts: &Vec<String>, from: usize, sep: &str) -> (out: String)
    requires
        from <= parts.len(),
    ensures
        out@ == joined(texts(parts@).skip(from as int), sep@),
{
    let mut out = String::new();
    let n = parts.len();
    if from >= n {
        return out;
    }
    out.append(parts[from].as_str());
    let mut k: usize = from + 1;
    let ghost all = texts(parts@);
    while k < n
        invariant
            from < k <= n,
            n == parts.len(),
            all == texts(parts@),
            out@ == joined(all.subrange(from as int, k as int), sep@),
        decreases n - k,
    {
        out.append(sep);
        out.append(parts[k].as_str());
        proof {
            let next = all.subrange(from as int, k + 1);
            assert(next.drop_last() =~= all.subrange(from as int, k as int));
        }
        k = k + 1;
    }
    out
}

/// How many flags at the start of `space` are set.
pub open spec fn leading(space: Seq<bool>) -> nat
    decreases space.len(),
{
    if space.len() > 0 && space[0] {
        1 + leading(space.drop_first())
    } else {
        0
    }
}

/// How many flags at the end of `space` are set.
pub open spec fn trailing(space: Seq<bool>) -> nat
    decreases space.len(),
{
    if space.len() > 0 && space.last() {
        1 + trailing(space.drop_last())
    } else {
        0
    }
}

/// `s` without the spaces at its start and at its end, where `space` says of each
/// character whether it is one.
pub open spec fn trimmed_by(s: Seq<char>, space: Seq<bool>) -> Seq<char> {
    let from = leading(space) as int;
    let to = s.len() - trailing(space.skip(from));
    s.subrange(from, to)
}

/// `s` without the white space at both ends.
pub open spec fn trimmed(s: Seq<char>) -> Seq<char> {
    trimmed_by(s, spaces(s))
}

/// `chars` without the spaces at the start and at the end, where `space` says of
/// each character whether it is one.
pub fn trim_at_spaces(chars: &Vec<char>, space: &Vec<bool>) -> (out: String)
    requires
        space.len() == chars.len(),
    ensures
        out@ == trimmed_by(chars@, space@),
{
    let n = chars.len();
    let mut start: usize = 0;
    assert(space@.skip(0) =~= space@);
    while start < n && space[start]
        invariant
            start <= n,
            n == space@.len(),
            leading(space@) == start + leading(space@.skip(start as int)),
        decreases n - start,
    {
        assert(space@.skip(start as int).drop_first() =~= space@.skip(start + 1));
        start = start + 1;
    }
    let ghost rest = space@.skip(start as int);
    let mut end: usize = n;
    while end > start && space[end - 1]
        invariant
            start <= end <= n,
            n == space@.len(),
            rest == space@.skip(start as int),
            trailing(rest) == (n - end) + trailing(space@.subrange(start as int, end as int)),
        decreases end,
    {
        let ghost part = space@.subrange(start as int, end as int);
        assert(part.drop_last() =~= space@.subrange(start as int, end - 1));
        end = end - 1;
    }
    string_of(chars, start, end)
}

/// `s` without the white space at both ends, as `str::trim` gives it.
pub fn trim(s: &str) -> (out: String)
    ensures
        out@ == trimmed(s@),
{
    let chars = chars_of(s);
    let space = classify(&chars);
    trim_at_spaces(&chars, &space)
}

/// The character that stands for the digit `d`.
pub open spec fn digit_char(d: nat) -> char {
    (48 + d) as u8 as char
}

/// `n` written in decimal, without leading zeros.
pub open spec fn decimal(n: nat) -> Seq<char>
    decreases n,
{
    if n < 10 {
        seq![digit_char(n)]
    } else {
        decimal(n / 10).push(digit_char(n % 10))
    }
}

/// `n` written in decimal, without leading zeros.
pub fn decimal_text(n: usize) -> (out: String)
    ensures
        out@ == decimal(n as nat),
    decreases n,
{
    if n < 10 {
        let mut out = String::new();
        out.push((48u8 + n as u8) as char);
        out
    } else {
        let mut out = decimal_text(n / 10);
        out.push((48u8 + (n % 10) as u8) as char);
        out
    }
}

/// Whether `c` is one of the ten decimal digits.
pub open spec fn is_digit(c: char) -> bool {
    '0' <= c <= '9'
}

/// What the digit `c` counts.
pub open spec fn digit_of(c: char) -> nat {
    if is_digit(c) {
        (c as u32 - 48) as nat
    } else {
        0
    }
}

/// The number that the digits `s` write in decimal.
pub open spec fn digits_value(s: Seq<char>) -> nat
    decreases s.len(),
{
    if s.len() == 0 {
        0
    } else {
        digits_value(s.drop_last()) * 10 + digit_of(s.last())
    }
}

/// `s` without the `+` that may stand before a number.
pub open spec fn unsigned(s: Seq<char>) -> Seq<char> {
    if s.len() > 0 && s[0] == '+' {
        s.drop_first()
    } else {
        s
    }
}

/// Whether every character of `s` is a decimal digit.
pub open spec fn all_digits(s: Seq<char>) -> bool {
    forall|i: int| 0 <= i < s.len() ==> is_digit(#[trigger] s[i])
}

/// The number that `s` writes: one or more decimal digits, after a `+` or after nothing.
/// Anything else writes no number.
pub open spec fn number(s: Seq<char>) -> Option<nat> {
    if unsigned(s).len() > 0 && all_digits(unsigned(s)) {
        Some(digits_value(unsigned(s)))
    } else {
        None
    }
}

/// A number is no smaller than the number that its first digits write.
pub proof fn lemma_digits_value_grows(s: Seq<char>, k: int)
    requires
        0 <= k <= s.len(),
    ensures
        digits_value(s.take(k)) <= digits_value(s),
    decreases s.len() - k,
{
    if k == s.len() {
        assert(s.take(k) =~= s);
    } else {
        lemma_digits_value_grows(s, k + 1);
        assert(s.take(k + 1).drop_last() =~= s.take(k));
    }
}

/// The number that `s` writes, where it writes one that a `usize` can hold.
pub open spec fn parsed(s: Seq<char>) -> Option<usize> {
    match number(s) {
        Some(v) => if v <= usize::MAX {
            Some(v as usize)
        } else {
            None
        },
        None => None,
    }
}

/// The number that `s` writes, as `str::parse` reads an unsigned number; `None` where
/// `s` writes none or the number does not fit.
pub fn parse_number(s: &str) -> (r: Option<usize>)
    ensures
        r == parsed(s@),
{
    let chars = chars_of(s);
    let n = chars.len();
    let start: usize = if n > 0 && chars[0] == '+' {
        1
    } else {
        0
    };
    let ghost digits = unsigned(s@);
    if start == n {
        return None;
    }
    let mut value: usize = 0;
    let mut i: usize = start;
    while i < n
        invariant
            start <= i <= n,
            n == chars@.len(),
            chars@ == s@,
            digits == s@.skip(start as int),
            digits == unsigned(s@),
            forall|j: int| 0 <= j < i - start ==> is_digit(#[trigger] digits[j]),
            value == digits_value(digits.take(i - start)),
        decreases n - i,
    {
        let c = chars[i];
        assert(digits[i - start] == c);
        if c < '0' || c > '9' {
            return None;
        }
        let d: usize = (c as u32 - 48) as usize;
        proof {
            assert(digits.take(i - start + 1).drop_last() =~= digits.take(i - start));
            lemma_digits_value_grows(digits, i - start + 1);
        }
        let next = match value.checked_mul(10) {
            Some(tens) => tens.checked_add(d),
            None => None,
        };
        match next {
            Some(v) => {
                value = v;
            },
            None => {
                return None;
            },
        }
        i = i + 1;
    }
    assert(digits.take(n - start) =~= digits);
    Some(value)
}

} // verus!
