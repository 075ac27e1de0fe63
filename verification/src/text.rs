//! Text as the shell reads and writes it: white space, words and fields.

use vstd::prelude::*;

verus! {

/// The characters with the Unicode property `White_Space`.
pub open spec fn is_white_space(c: char) -> bool {
    let n = c as int;
    ||| 0x09 <= n <= 0x0d
    ||| n == 0x20
    ||| n == 0x85
    ||| n == 0xa0
    ||| n == 0x1680
    ||| 0x2000 <= n <= 0x200a
    ||| 0x2028 <= n <= 0x2029
    ||| n == 0x202f
    ||| n == 0x205f
    ||| n == 0x3000
}

/// Whether `c` is white space.
pub fn is_whitespace(c: char) -> (b: bool)
    ensures
        b == is_white_space(c),
{
    let n: u32 = c as u32;
    (0x09 <= n && n <= 0x0d) || n == 0x20 || n == 0x85 || n == 0xa0 || n == 0x1680 || (0x2000 <= n
        && n <= 0x200a) || n == 0x2028 || n == 0x2029 || n == 0x202f || n == 0x205f || n == 0x3000
}

/// The texts that a sequence of string slices holds.
pub open spec fn texts(v: Seq<&str>) -> Seq<Seq<char>> {
    v.map_values(|s: &str| s@)
}

/// The index of the first `sep` in `s`, or the length of `s` if there is none.
pub open spec fn field_len(s: Seq<char>, sep: char) -> nat
    decreases s.len(),
{
    if s.len() == 0 || s[0] == sep {
        0
    } else {
        1 + field_len(s.drop_first(), sep)
    }
}

/// The fields of `s` between the separators: one more than there are separators.
pub open spec fn fields_of(s: Seq<char>, sep: char) -> Seq<Seq<char>>
    decreases s.len(),
{
    let n = field_len(s, sep) as int;
    if n < s.len() {
        seq![s.take(n)] + fields_of(s.skip(n + 1), sep)
    } else {
        seq![s]
    }
}

/// The length of the longest prefix of `s` without white space.
pub open spec fn word_len(s: Seq<char>) -> nat
    decreases s.len(),
{
    if s.len() == 0 || is_white_space(s[0]) {
        0
    } else {
        1 + word_len(s.drop_first())
    }
}

/// The words of `s`: its maximal runs of characters that are not white space, in order.
pub open spec fn words_of(s: Seq<char>) -> Seq<Seq<char>>
    decreases s.len(),
{
    if s.len() == 0 {
        seq![]
    } else if is_white_space(s[0]) {
        words_of(s.drop_first())
    } else {
        let n = word_len(s) as int;
        if 0 < n <= s.len() {
            seq![s.take(n)] + words_of(s.skip(n))
        } else {
            seq![]
        }
    }
}

/// `s` without the white space at its start and at its end.
pub open spec fn trimmed(s: Seq<char>) -> Seq<char>
    decreases s.len(),
{
    if s.len() == 0 {
        s
    } else if is_white_space(s[0]) {
        trimmed(s.drop_first())
    } else if is_white_space(s.last()) {
        trimmed(s.drop_last())
    } else {
        s
    }
}

/// The characters of `s`.
pub fn chars_of(s: &str) -> (r: Vec<char>)
    ensures
        r@ == s@,
{
    let mut r: Vec<char> = Vec::new();
    for c in it: s.chars()
        invariant
            r@ == s@.take(it.index() as int),
            it.seq() == s@,
    {
        r.push(c);
        assert(s@.take(it.index() + 1) == s@.take(it.index() as int).push(c));
    }
    assert(s@.take(s@.len() as int) == s@);
    r
}

proof fn lemma_field_len(s: Seq<char>, sep: char, n: int)
    requires
        0 <= n <= s.len(),
        forall|k: int| 0 <= k < n ==> s[k] != sep,
        n == s.len() || s[n] == sep,
    ensures
        field_len(s, sep) == n,
    decreases n,
{
    if n > 0 {
        assert(forall|k: int| 0 <= k < n - 1 ==> s.drop_first()[k] == s[k + 1]);
        lemma_field_len(s.drop_first(), sep, n - 1);
    }
}

proof fn lemma_word_len(s: Seq<char>, n: int)
    requires
        0 <= n <= s.len(),
        forall|k: int| 0 <= k < n ==> !is_white_space(#[trigger] s[k]),
        n == s.len() || is_white_space(s[n]),
    ensures
        word_len(s) == n,
    decreases n,
{
    if n > 0 {
        assert(forall|k: int| 0 <= k < n - 1 ==> s.drop_first()[k] == s[k + 1]);
        lemma_word_len(s.drop_first(), n - 1);
    }
}

/// The fields of `s` between the separators, as slices of `s`.
pub fn fields<'a>(s: &'a str, sep: char) -> (r: Vec<&'a str>)
    ensures
        texts(r@) == fields_of(s@, sep),
{
    let cs = chars_of(s);
    let mut r: Vec<&'a str> = Vec::new();
    let mut start: usize = 0;
    let mut i: usize = 0;
    assert(s@.skip(0) == s@);
    assert(texts(r@) + fields_of(s@, sep) == fields_of(s@, sep));
    while i < cs.len()
        invariant
            start <= i <= cs@.len(),
            cs@ == s@,
            forall|k: int| start <= k < i ==> s@[k] != sep,
            texts(r@) + fields_of(s@.skip(start as int), sep) == fields_of(s@, sep),
        decreases cs@.len() - i,
    {
        if cs[i] == sep {
            let ghost rest = s@.skip(start as int);
            let ghost before = texts(r@);
            let part = s.substring_char(start, i);
            r.push(part);
            proof {
                let n = i - start;
                assert(forall|k: int| 0 <= k < n ==> rest[k] == s@[start + k]);
                lemma_field_len(rest, sep, n);
                assert(rest.take(n) == part@);
                assert(rest.skip(n + 1) == s@.skip(i + 1));
                assert(texts(r@) == before.push(part@));
                assert(texts(r@) + fields_of(s@.skip(i + 1), sep) == before + fields_of(rest, sep));
            }
            start = i + 1;
        }
        i = i + 1;
    }
    let ghost rest = s@.skip(start as int);
    let ghost before = texts(r@);
    let part = s.substring_char(start, cs.len());
    r.push(part);
    proof {
        assert(forall|k: int| 0 <= k < rest.len() ==> rest[k] == s@[start + k]);
        lemma_field_len(rest, sep, rest.len() as int);
        assert(rest == part@);
        assert(texts(r@) == before.push(part@));
    }
    r
}

/// The words of `s`, as slices of `s`.
pub fn words<'a>(s: &'a str) -> (r: Vec<&'a str>)
    ensures
        texts(r@) == words_of(s@),
{
    let cs = chars_of(s);
    let mut r: Vec<&'a str> = Vec::new();
    let mut i: usize = 0;
    assert(s@.skip(0) == s@);
    assert(texts(r@) + words_of(s@) == words_of(s@));
    while i < cs.len()
        invariant
            i <= cs@.len(),
            cs@ == s@,
            texts(r@) + words_of(s@.skip(i as int)) == words_of(s@),
        decreases cs@.len() - i,
    {
        let ghost rest = s@.skip(i as int);
        if is_whitespace(cs[i]) {
            assert(rest.drop_first() == s@.skip(i + 1));
            i = i + 1;
        } else {
            let mut j: usize = i + 1;
            while j < cs.len() && !is_whitespace(cs[j])
                invariant
                    i < j <= cs@.len(),
                    cs@ == s@,
                    forall|k: int| i <= k < j ==> !is_white_space(#[trigger] s@[k]),
                decreases cs@.len() - j,
            {
                j = j + 1;
            }
            let ghost before = texts(r@);
            let word = s.substring_char(i, j);
            r.push(word);
            proof {
                let n = j - i;
                assert(forall|k: int| 0 <= k < n ==> rest[k] == s@[i + k]);
                lemma_word_len(rest, n);
                assert(rest.take(n) == word@);
                assert(rest.skip(n) == s@.skip(j as int));
                assert(texts(r@) == before.push(word@));
                assert(texts(r@) + words_of(s@.skip(j as int)) == before + words_of(rest));
            }
            i = j;
        }
    }
    assert(s@.skip(i as int).len() == 0);
    assert(texts(r@) + words_of(s@.skip(i as int)) == texts(r@));
    r
}

/// `s` without the white space at its start and at its end.
pub fn trim<'a>(s: &'a str) -> (r: &'a str)
    ensures
        r@ == trimmed(s@),
{
    let cs = chars_of(s);
    let mut from: usize = 0;
    let mut to: usize = cs.len();
    assert(s@.subrange(0, s@.len() as int) == s@);
    while from < to && is_whitespace(cs[from])
        invariant
            from <= to == cs@.len(),
            cs@ == s@,
            trimmed(s@.subrange(from as int, to as int)) == trimmed(s@),
        decreases to - from,
    {
        assert(s@.subrange(from as int, to as int).drop_first() == s@.subrange(
            from + 1,
            to as int,
        ));
        from = from + 1;
    }
    while from < to && is_whitespace(cs[to - 1])
        invariant
            from <= to <= cs@.len(),
            cs@ == s@,
            from < to ==> !is_white_space(s@[from as int]),
            trimmed(s@.subrange(from as int, to as int)) == trimmed(s@),
        decreases to - from,
    {
        assert(s@.subrange(from as int, to as int).drop_last() == s@.subrange(from as int, to - 1));
        to = to - 1;
    }
    s.substring_char(from, to)
}

/// Whether `s` holds the character NUL.
pub fn has_nul(s: &str) -> (b: bool)
    ensures
        b == s@.contains('\0'),
{
    let cs = chars_of(s);
    let mut i: usize = 0;
    while i < cs.len()
        invariant
            i <= cs@.len(),
            cs@ == s@,
            forall|k: int| 0 <= k < i ==> s@[k] != '\0',
        decreases cs@.len() - i,
    {
        if cs[i] == '\0' {
            assert(s@[i as int] == '\0');
            return true;
        }
        i = i + 1;
    }
    false
}

/// Whether `a` and `b` are the same text.
pub fn same_text(a: &str, b: &str) -> (r: bool)
    ensures
        r == (a@ == b@),
{
    a.to_owned() == b.to_owned()
}

/// The parts one after the other, with `sep` between them.
pub open spec fn joined_by(parts: Seq<Seq<char>>, sep: char) -> Seq<char>
    decreases parts.len(),
{
    if parts.len() == 0 {
        seq![]
    } else if parts.len() == 1 {
        parts[0]
    } else {
        parts[0] + seq![sep] + joined_by(parts.drop_first(), sep)
    }
}

proof fn lemma_field(s: Seq<char>, sep: char)
    ensures
        field_len(s, sep) <= s.len(),
        forall|k: int| 0 <= k < field_len(s, sep) ==> s[k] != sep,
        field_len(s, sep) < s.len() ==> s[field_len(s, sep) as int] == sep,
    decreases s.len(),
{
    if s.len() > 0 && s[0] != sep {
        let rest = s.drop_first();
        lemma_field(rest, sep);
        assert forall|k: int| 0 <= k < field_len(s, sep) implies s[k] != sep by {
            if k > 0 {
                assert(s[k] == rest[k - 1]);
            }
        }
    }
}

/// Put together again with the separator between them, the fields of a text are that text.
pub proof fn law_fields_join(s: Seq<char>, sep: char)
    ensures
        joined_by(fields_of(s, sep), sep) == s,
        fields_of(s, sep).len() > 0,
    decreases s.len(),
{
    lemma_field(s, sep);
    let n = field_len(s, sep) as int;
    if n < s.len() {
        let rest = s.skip(n + 1);
        law_fields_join(rest, sep);
        let parts = fields_of(s, sep);
        assert(parts.drop_first() == fields_of(rest, sep));
        assert(s == s.take(n) + seq![sep] + rest);
    }
}

/// No field holds the separator.
pub proof fn law_fields_hold_no_separator(s: Seq<char>, sep: char)
    ensures
        forall|i: int|
            0 <= i < fields_of(s, sep).len() ==> !(#[trigger] fields_of(s, sep)[i]).contains(sep),
    decreases s.len(),
{
    lemma_field(s, sep);
    let n = field_len(s, sep) as int;
    let parts = fields_of(s, sep);
    if n < s.len() {
        let rest = s.skip(n + 1);
        law_fields_hold_no_separator(rest, sep);
        assert forall|i: int| 0 <= i < parts.len() implies !(#[trigger] parts[i]).contains(sep) by {
            if i > 0 {
                assert(parts[i] == fields_of(rest, sep)[i - 1]);
            }
        }
    }
}

/// There is one field more than there are separators.
pub proof fn law_fields_count(s: Seq<char>, sep: char)
    ensures
        fields_of(s, sep).len() == 1 + s.filter(|c: char| c == sep).len(),
    decreases s.len(),
{
    let is_sep = |c: char| c == sep;
    lemma_field(s, sep);
    let n = field_len(s, sep) as int;
    if n < s.len() {
        let head = s.take(n);
        let rest = s.skip(n + 1);
        law_fields_count(rest, sep);
        assert(s == head + seq![sep] + rest);
        Seq::filter_distributes_over_add(head + seq![sep], rest, is_sep);
        Seq::filter_distributes_over_add(head, seq![sep], is_sep);
        head.lemma_all_neg_filter_empty(is_sep);
        assert(seq![sep].filter(is_sep).len() == 1) by {
            reveal(Seq::filter);
            assert(seq![sep].drop_last() == Seq::<char>::empty());
            assert(Seq::<char>::empty().filter(is_sep) == Seq::<char>::empty());
        }
    } else {
        s.lemma_all_neg_filter_empty(is_sep);
    }
}

proof fn lemma_word(s: Seq<char>)
    ensures
        word_len(s) <= s.len(),
        forall|k: int| 0 <= k < word_len(s) ==> !is_white_space(#[trigger] s[k]),
        word_len(s) < s.len() ==> is_white_space(s[word_len(s) as int]),
    decreases s.len(),
{
    if s.len() > 0 && !is_white_space(s[0]) {
        let rest = s.drop_first();
        lemma_word(rest);
        assert forall|k: int| 0 <= k < word_len(s) implies !is_white_space(#[trigger] s[k]) by {
            if k > 0 {
                assert(s[k] == rest[k - 1]);
            }
        }
    }
}

/// A word is not empty, and it holds no white space.
pub proof fn law_words_hold_no_white_space(s: Seq<char>)
    ensures
        forall|i: int|
            0 <= i < words_of(s).len() ==> (#[trigger] words_of(s)[i]).len() > 0,
        forall|i: int, k: int|
            0 <= i < words_of(s).len() && 0 <= k < words_of(s)[i].len() ==> !is_white_space(
                #[trigger] words_of(s)[i][k],
            ),
    decreases s.len(),
{
    if s.len() > 0 {
        if is_white_space(s[0]) {
            law_words_hold_no_white_space(s.drop_first());
            assert(words_of(s) == words_of(s.drop_first()));
        } else {
            lemma_word(s);
            let n = word_len(s) as int;
            let rest = s.skip(n);
            law_words_hold_no_white_space(rest);
            assert(words_of(s) == seq![s.take(n)] + words_of(rest));
            assert forall|i: int| 0 <= i < words_of(s).len() implies (#[trigger] words_of(
                s,
            )[i]).len() > 0 by {
                if i > 0 {
                    assert(words_of(s)[i] == words_of(rest)[i - 1]);
                }
            }
            assert forall|i: int, k: int|
                0 <= i < words_of(s).len() && 0 <= k < words_of(
                    s,
                )[i].len() implies !is_white_space(#[trigger] words_of(s)[i][k]) by {
                if i > 0 {
                    assert(words_of(s)[i] == words_of(rest)[i - 1]);
                } else {
                    assert(words_of(s)[0] == s.take(n));
                }
            }
        }
    }
}

/// A text without white space is one word, unless it is empty.
pub proof fn law_dark_text_is_one_word(s: Seq<char>)
    requires
        s.len() > 0,
        forall|i: int| 0 <= i < s.len() ==> !is_white_space(#[trigger] s[i]),
    ensures
        words_of(s) == seq![s],
{
    let n = s.len() as int;
    lemma_word_len(s, n);
    assert(s.take(n) == s);
    assert(s.skip(n).len() == 0);
    assert(words_of(s.skip(n)) == Seq::<Seq<char>>::empty());
}

/// White space parts words: the words of a text are those before a white space and those after
/// it.
pub proof fn law_white_space_parts_words(a: Seq<char>, w: char, b: Seq<char>)
    requires
        is_white_space(w),
    ensures
        words_of(a + seq![w] + b) == words_of(a) + words_of(b),
    decreases a.len(),
{
    let s = a + seq![w] + b;
    let tail = seq![w] + b;
    assert(tail.drop_first() == b);
    if a.len() == 0 {
        assert(s == tail);
        assert(words_of(a) + words_of(b) == words_of(b));
    } else if is_white_space(a[0]) {
        assert(s.drop_first() == a.drop_first() + seq![w] + b);
        law_white_space_parts_words(a.drop_first(), w, b);
    } else {
        lemma_word(a);
        let n = word_len(a) as int;
        assert forall|k: int| 0 <= k < n implies !is_white_space(#[trigger] s[k]) by {
            assert(s[k] == a[k]);
        }
        lemma_word_len(s, n);
        assert(s.take(n) == a.take(n));
        assert(s.skip(n) == a.skip(n) + seq![w] + b);
        law_white_space_parts_words(a.skip(n), w, b);
        assert(words_of(s) == seq![a.take(n)] + (words_of(a.skip(n)) + words_of(b)));
    }
}

/// A separator parts fields: the fields of a text are those before a separator and those after
/// it.
pub proof fn law_separator_parts_fields(a: Seq<char>, sep: char, b: Seq<char>)
    ensures
        fields_of(a + seq![sep] + b, sep) == fields_of(a, sep) + fields_of(b, sep),
    decreases a.len(),
{
    let s = a + seq![sep] + b;
    lemma_field(a, sep);
    let n = field_len(a, sep) as int;
    assert forall|k: int| 0 <= k < n implies s[k] != sep by {
        assert(s[k] == a[k]);
    }
    lemma_field_len(s, sep, n);
    assert(s.take(n) == a.take(n));
    if n < a.len() {
        assert(s.skip(n + 1) == a.skip(n + 1) + seq![sep] + b);
        law_separator_parts_fields(a.skip(n + 1), sep, b);
        assert(fields_of(s, sep) == seq![a.take(n)] + (fields_of(a.skip(n + 1), sep) + fields_of(
            b,
            sep,
        )));
    } else {
        assert(a.take(n) == a);
        assert(s.skip(n + 1) == b);
    }
}

/// A text without the separator is its only field.
pub proof fn law_text_without_separator_is_one_field(s: Seq<char>, sep: char)
    requires
        !s.contains(sep),
    ensures
        fields_of(s, sep) == seq![s],
{
    assert forall|k: int| 0 <= k < s.len() implies s[k] != sep by {
        assert(s.contains(s[k]));
    }
    lemma_field_len(s, sep, s.len() as int);
}

/// What is said of a sequence of string slices is said of each of them.
pub proof fn law_texts_are_those_of_the_slices(v: Seq<&str>)
    ensures
        texts(v).len() == v.len(),
        forall|i: int| 0 <= i < v.len() ==> #[trigger] texts(v)[i] == v[i]@,
{
}

/// A character that a text does not hold is in none of its words.
pub proof fn law_words_come_from_the_text(s: Seq<char>, c: char)
    requires
        !s.contains(c),
    ensures
        forall|i: int| 0 <= i < words_of(s).len() ==> !(#[trigger] words_of(s)[i]).contains(c),
    decreases s.len(),
{
    if s.len() > 0 {
        if is_white_space(s[0]) {
            let rest = s.drop_first();
            lemma_skip_contains(s, 1, c);
            law_words_come_from_the_text(rest, c);
            assert(words_of(s) == words_of(rest));
        } else {
            lemma_word(s);
            let n = word_len(s) as int;
            let rest = s.skip(n);
            lemma_skip_contains(s, n, c);
            law_words_come_from_the_text(rest, c);
            assert(words_of(s) == seq![s.take(n)] + words_of(rest));
            assert forall|i: int| 0 <= i < words_of(s).len() implies !(#[trigger] words_of(
                s,
            )[i]).contains(c) by {
                if i > 0 {
                    assert(words_of(s)[i] == words_of(rest)[i - 1]);
                } else {
                    assert forall|k: int| 0 <= k < n implies s.take(n)[k] != c by {
                        assert(s.contains(s[k]));
                    }
                }
            }
        }
    }
}

proof fn lemma_skip_contains(s: Seq<char>, n: int, c: char)
    requires
        0 <= n <= s.len(),
        !s.contains(c),
    ensures
        !s.skip(n).contains(c),
        n == 1 ==> !s.drop_first().contains(c),
{
    assert forall|k: int| 0 <= k < s.len() - n implies s.skip(n)[k] != c by {
        assert(s.contains(s[n + k]));
    }
    if n == 1 {
        assert(s.drop_first() == s.skip(1));
    }
}

/// The words one after the other are the text without its white space.
pub proof fn law_words_keep_the_text(s: Seq<char>)
    ensures
        words_of(s).flatten() == s.filter(|c: char| !is_white_space(c)),
    decreases s.len(),
{
    let dark = |c: char| !is_white_space(c);
    if s.len() == 0 {
        assert(s.filter(dark) == Seq::<char>::empty()) by {
            reveal(Seq::filter);
        }
        assert(words_of(s).flatten() == Seq::<char>::empty());
    } else if is_white_space(s[0]) {
        let rest = s.drop_first();
        law_words_keep_the_text(rest);
        assert(s == seq![s[0]] + rest);
        Seq::filter_distributes_over_add(seq![s[0]], rest, dark);
        seq![s[0]].lemma_all_neg_filter_empty(dark);
        assert(seq![s[0]].filter(dark) + rest.filter(dark) == rest.filter(dark));
    } else {
        lemma_word(s);
        let n = word_len(s) as int;
        let word = s.take(n);
        let rest = s.skip(n);
        law_words_keep_the_text(rest);
        assert(s == word + rest);
        Seq::filter_distributes_over_add(word, rest, dark);
        lemma_filter_all(word, dark);
        assert(words_of(s).first() == word);
        assert(words_of(s).drop_first() == words_of(rest));
    }
}

proof fn lemma_filter_all(s: Seq<char>, p: spec_fn(char) -> bool)
    requires
        forall|i: int| 0 <= i < s.len() ==> p(#[trigger] s[i]),
    ensures
        s.filter(p) == s,
    decreases s.len(),
{
    reveal(Seq::filter);
    if s.len() > 0 {
        lemma_filter_all(s.drop_last(), p);
        assert(s == s.drop_last().push(s.last()));
    }
}

/// Whether `s` is made of white space alone.
pub open spec fn is_blank(s: Seq<char>) -> bool {
    forall|i: int| 0 <= i < s.len() ==> is_white_space(#[trigger] s[i])
}

proof fn lemma_blank_first(s: Seq<char>)
    requires
        s.len() > 0,
        is_white_space(s[0]),
    ensures
        is_blank(s) == is_blank(s.drop_first()),
{
    let rest = s.drop_first();
    if is_blank(rest) {
        assert forall|i: int| 0 <= i < s.len() implies is_white_space(#[trigger] s[i]) by {
            if i > 0 {
                assert(s[i] == rest[i - 1]);
            }
        }
    }
    if is_blank(s) {
        assert forall|i: int| 0 <= i < rest.len() implies is_white_space(#[trigger] rest[i]) by {
            assert(rest[i] == s[i + 1]);
        }
    }
}

/// A text has no words exactly where it is blank.
pub proof fn law_blank_has_no_words(s: Seq<char>)
    ensures
        words_of(s).len() == 0 <==> is_blank(s),
    decreases s.len(),
{
    if s.len() > 0 {
        if is_white_space(s[0]) {
            law_blank_has_no_words(s.drop_first());
            lemma_blank_first(s);
        } else {
            lemma_word(s);
            assert(word_len(s) > 0);
            assert(!is_blank(s));
        }
    }
}

/// A trimmed text is empty exactly where the text is blank; otherwise it begins and ends with
/// something other than white space.
pub proof fn law_trimmed_ends(s: Seq<char>)
    ensures
        trimmed(s).len() == 0 <==> is_blank(s),
        trimmed(s).len() > 0 ==> !is_white_space(trimmed(s)[0]) && !is_white_space(
            trimmed(s).last(),
        ),
    decreases s.len(),
{
    if s.len() > 0 {
        if is_white_space(s[0]) {
            law_trimmed_ends(s.drop_first());
            lemma_blank_first(s);
        } else if is_white_space(s.last()) {
            law_trimmed_ends(s.drop_last());
            assert(s.drop_last()[0] == s[0]);
        }
    }
}

/// What trimming takes away is white space alone: a text is its trimmed form with something blank
/// before it and something blank after it.
pub proof fn law_trimmed_is_the_rest(s: Seq<char>)
    ensures
        exists|before: Seq<char>, after: Seq<char>|
            is_blank(before) && is_blank(after) && s == #[trigger] (before + trimmed(s) + after),
    decreases s.len(),
{
    let none = Seq::<char>::empty();
    if s.len() > 0 && is_white_space(s[0]) {
        let rest = s.drop_first();
        law_trimmed_is_the_rest(rest);
        let (before, after) = choose|before: Seq<char>, after: Seq<char>|
            is_blank(before) && is_blank(after) && rest == #[trigger] (before + trimmed(rest)
                + after);
        let wider = seq![s[0]] + before;
        assert(wider.drop_first() == before);
        lemma_blank_first(wider);
        assert(trimmed(s) == trimmed(rest));
        assert(s == seq![s[0]] + (before + trimmed(rest) + after));
        assert(s == wider + trimmed(s) + after);
    } else if s.len() > 0 && is_white_space(s.last()) {
        let front = s.drop_last();
        law_trimmed_is_the_rest(front);
        let (before, after) = choose|before: Seq<char>, after: Seq<char>|
            is_blank(before) && is_blank(after) && front == #[trigger] (before + trimmed(front)
                + after);
        let wider = after.push(s.last());
        assert(is_blank(wider));
        assert(trimmed(s) == trimmed(front));
        assert(s == (before + trimmed(front) + after).push(s.last()));
        assert(s == before + trimmed(s) + wider);
    } else {
        assert(s == none + trimmed(s) + none);
    }
}

proof fn lemma_words_drop_last(s: Seq<char>)
    requires
        s.len() > 0,
        is_white_space(s.last()),
    ensures
        words_of(s.drop_last()) == words_of(s),
    decreases s.len(),
{
    let front = s.drop_last();
    if s.len() == 1 {
        assert(s.drop_first() == Seq::<char>::empty());
        assert(front == Seq::<char>::empty());
    } else if is_white_space(s[0]) {
        lemma_words_drop_last(s.drop_first());
        assert(s.drop_first().drop_last() == front.drop_first());
    } else {
        lemma_word(s);
        let n = word_len(s) as int;
        assert(n < s.len());
        lemma_word_len(front, n);
        assert(front.take(n) == s.take(n));
        lemma_words_drop_last(s.skip(n));
        assert(s.skip(n).drop_last() == front.skip(n));
    }
}

/// The white space around a text does not change its words.
pub proof fn law_words_of_trimmed(s: Seq<char>)
    ensures
        words_of(trimmed(s)) == words_of(s),
    decreases s.len(),
{
    if s.len() > 0 {
        if is_white_space(s[0]) {
            law_words_of_trimmed(s.drop_first());
        } else if is_white_space(s.last()) {
            law_words_of_trimmed(s.drop_last());
            lemma_words_drop_last(s);
        }
    }
}

} // verus!
