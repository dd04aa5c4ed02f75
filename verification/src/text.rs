//! Text as sequences of characters: searching, trimming, splitting, numbers.
use vstd::prelude::*;
use vstd::slice::slice_subrange;

verus! {

/// `String::push` of the standard library: appends one character to the end of
/// the string and changes nothing before it.
pub assume_specification[ String::push ](s: &mut String, c: char)
    ensures
        final(s)@ == old(s)@.push(c),
;

/// The characters of a text, in order.
pub fn chars_of(s: &str) -> (r: Vec<char>)
    ensures
        r@ == s@,
{
    let mut out: Vec<char> = Vec::new();
    for c in it: s.chars()
        invariant
            out@ == it.seq().take(it.index() as int),
            it.seq() == s@,
    {
        out.push(c);
    }
    out
}

/// The text made of the given characters.
pub fn string_of(cs: &[char]) -> (r: String)
    ensures
        r@ == cs@,
{
    let mut out = String::new();
    for i in 0..cs.len()
        invariant
            out@ == cs@.take(i as int),
    {
        out.push(cs[i]);
    }
    out
}

/// A text that may be missing, by its characters.
pub open spec fn opt_view(s: Option<String>) -> Option<Seq<char>> {
    match s {
        Some(t) => Some(t@),
        None => None,
    }
}

/// Texts by their characters.
pub open spec fn text_views(list: Seq<String>) -> Seq<Seq<char>> {
    Seq::new(list.len(), |i: int| list[i]@)
}

/// Copies a text that may be missing.
pub fn opt_copy(s: &Option<String>) -> (r: Option<String>)
    ensures
        opt_view(r) == opt_view(*s),
{
    match s {
        Some(t) => Some(t.clone()),
        None => None,
    }
}

/// Whether two texts hold the same characters.
pub fn same_text(a: &str, b: &str) -> (r: bool)
    ensures
        r == (a@ == b@),
{
    let left = a.to_string();
    let right = b.to_string();
    left == right
}

/// Whether two character sequences are equal.
pub fn same_chars(a: &[char], b: &[char]) -> (r: bool)
    ensures
        r == (a@ == b@),
{
    if a.len() != b.len() {
        return false;
    }
    for i in 0..a.len()
        invariant
            a@.len() == b@.len(),
            forall|j: int| 0 <= j < i ==> a@[j] == b@[j],
    {
        if a[i] != b[i] {
            return false;
        }
    }
    assert(a@ =~= b@);
    true
}

// ---------------------------------------------------------------------------
// Character classes
// ---------------------------------------------------------------------------

/// The characters with the Unicode property `White_Space`.
pub open spec fn whitespace(c: char) -> bool {
    let u = c as u32;
    ||| 0x09 <= u <= 0x0d
    ||| u == 0x20
    ||| u == 0x85
    ||| u == 0xa0
    ||| u == 0x1680
    ||| 0x2000 <= u <= 0x200a
    ||| u == 0x2028
    ||| u == 0x2029
    ||| u == 0x202f
    ||| u == 0x205f
    ||| u == 0x3000
}

/// Whether a character is white space.
pub fn is_whitespace(c: char) -> (r: bool)
    ensures
        r == whitespace(c),
{
    let u: u32 = c as u32;
    (0x09 <= u && u <= 0x0d) || u == 0x20 || u == 0x85 || u == 0xa0 || u == 0x1680 || (0x2000 <= u
        && u <= 0x200a) || u == 0x2028 || u == 0x2029 || u == 0x202f || u == 0x205f || u == 0x3000
}

/// The control characters, the Unicode general category `Cc`.
pub open spec fn control(c: char) -> bool {
    let u = c as u32;
    u <= 0x1f || 0x7f <= u <= 0x9f
}

/// Whether a character is a control character.
pub fn is_control(c: char) -> (r: bool)
    ensures
        r == control(c),
{
    let u: u32 = c as u32;
    u <= 0x1f || (0x7f <= u && u <= 0x9f)
}

// ---------------------------------------------------------------------------
// Searching
// ---------------------------------------------------------------------------

/// `pat` stands in `s` at position `i`.
pub open spec fn occurs_at(s: Seq<char>, pat: Seq<char>, i: int) -> bool {
    &&& 0 <= i
    &&& i + pat.len() <= s.len()
    &&& s.subrange(i, i + pat.len()) == pat
}

/// `pat` stands somewhere in `s`.
pub open spec fn contains(s: Seq<char>, pat: Seq<char>) -> bool {
    exists|i: int| occurs_at(s, pat, i)
}

/// `s` begins with `pat`.
pub open spec fn starts_with(s: Seq<char>, pat: Seq<char>) -> bool {
    occurs_at(s, pat, 0)
}

/// `s` ends with `pat`.
pub open spec fn ends_with(s: Seq<char>, pat: Seq<char>) -> bool {
    occurs_at(s, pat, s.len() - pat.len())
}

/// The first position at or after `from` where `pat` stands in `s`.
pub open spec fn first_at(s: Seq<char>, pat: Seq<char>, from: int) -> Option<int>
    decreases s.len() - from + 1,
{
    if from < 0 || from + pat.len() > s.len() {
        None
    } else if occurs_at(s, pat, from) {
        Some(from)
    } else {
        first_at(s, pat, from + 1)
    }
}

/// What `first_at` finds is an occurrence, and there is none before it.
pub proof fn lemma_first_at(s: Seq<char>, pat: Seq<char>, from: int)
    requires
        0 <= from,
    ensures
        match first_at(s, pat, from) {
            Some(i) => from <= i && occurs_at(s, pat, i) && (forall|j: int|
                from <= j < i ==> !occurs_at(s, pat, j)),
            None => forall|j: int| from <= j ==> !occurs_at(s, pat, j),
        },
    decreases s.len() - from + 1,
{
    if from + pat.len() > s.len() {
    } else if occurs_at(s, pat, from) {
    } else {
        lemma_first_at(s, pat, from + 1);
    }
}

/// Whether `pat` stands in `s` at position `i`.
pub fn matches_at(s: &[char], pat: &[char], i: usize) -> (r: bool)
    ensures
        r == occurs_at(s@, pat@, i as int),
{
    if i > s.len() || pat.len() > s.len() - i {
        return false;
    }
    let n: usize = s.len();
    for j in 0..pat.len()
        invariant
            n == s@.len(),
            i + pat@.len() <= n,
            forall|k: int| 0 <= k < j ==> s@[i + k] == pat@[k],
    {
        if s[i + j] != pat[j] {
            assert(s@.subrange(i as int, i + pat@.len())[j as int] != pat@[j as int]);
            return false;
        }
    }
    assert(s@.subrange(i as int, i + pat@.len()) =~= pat@);
    true
}

/// Finds the first occurrence of `pat` in `s` at or after `from`.
pub fn find_from(s: &[char], pat: &[char], from: usize) -> (r: Option<usize>)
    ensures
        match r {
            Some(i) => first_at(s@, pat@, from as int) == Some(i as int),
            None => first_at(s@, pat@, from as int) is None,
        },
{
    if from > s.len() || pat.len() > s.len() {
        return None;
    }
    let last: usize = s.len() - pat.len();
    let mut i: usize = from;
    while i <= last
        invariant
            last == s@.len() - pat@.len(),
            from <= i,
            i <= s@.len() + 1,
            first_at(s@, pat@, from as int) == first_at(s@, pat@, i as int),
        decreases s@.len() + 1 - i,
    {
        if matches_at(s, pat, i) {
            return Some(i);
        }
        if i == last {
            assert(first_at(s@, pat@, i + 1) is None);
            return None;
        }
        i = i + 1;
    }
    None
}

/// Whether the text `s` holds the text `pat` anywhere.
pub fn text_contains(s: &str, pat: &str) -> (r: bool)
    ensures
        r == contains(s@, pat@),
{
    let cs = chars_of(s);
    let ps = chars_of(pat);
    proof {
        lemma_first_at(s@, pat@, 0);
    }
    match find_from(cs.as_slice(), ps.as_slice(), 0) {
        Some(i) => {
            assert(occurs_at(s@, pat@, i as int));
            true
        },
        None => false,
    }
}

/// Whether the text `s` begins with the text `pat`.
pub fn text_starts_with(s: &str, pat: &str) -> (r: bool)
    ensures
        r == starts_with(s@, pat@),
{
    let cs = chars_of(s);
    let ps = chars_of(pat);
    matches_at(cs.as_slice(), ps.as_slice(), 0)
}

/// The two sides of the first occurrence of `sep`.
pub open spec fn split_once(s: Seq<char>, sep: Seq<char>) -> Option<(Seq<char>, Seq<char>)> {
    match first_at(s, sep, 0) {
        Some(i) => Some((s.take(i), s.skip(i + sep.len()))),
        None => None,
    }
}

/// Cuts a sequence at the first occurrence of a separator.
pub fn cut_once<'a>(s: &'a [char], sep: &[char]) -> (r: Option<(&'a [char], &'a [char])>)
    ensures
        match r {
            Some((a, b)) => split_once(s@, sep@) == Some((a@, b@)),
            None => split_once(s@, sep@) is None,
        },
{
    match find_from(s, sep, 0) {
        Some(i) => {
            proof {
                lemma_first_at(s@, sep@, 0);
            }
            let n: usize = s.len();
            assert(i + sep@.len() <= n);
            let a = slice_subrange(s, 0, i);
            let b = slice_subrange(s, i + sep.len(), s.len());
            assert(a@ =~= s@.take(i as int));
            assert(b@ =~= s@.skip(i + sep@.len()));
            Some((a, b))
        },
        None => None,
    }
}

/// A text is split at the first place of a character.
pub proof fn lemma_split_at(head: Seq<char>, c: char, rest: Seq<char>)
    requires
        forall|i: int| 0 <= i < head.len() ==> #[trigger] head[i] != c,
    ensures
        split_once(head + seq![c] + rest, seq![c]) == Some((head, rest)),
{
    let s = head + seq![c] + rest;
    let sep = seq![c];
    let n = head.len() as int;
    assert(s.subrange(n, n + 1) =~= sep);
    assert(occurs_at(s, sep, n));
    lemma_first_at(s, sep, 0);
    match first_at(s, sep, 0) {
        Some(i) => {
            if i < n {
                assert(s.subrange(i, i + 1)[0] == head[i]);
            }
            assert(i == n);
            assert(s.take(n) =~= head);
            assert(s.skip(n + 1) =~= rest);
        },
        None => {},
    }
}

/// A text with every occurrence of a pattern replaced, from the front on.
pub open spec fn replaced(s: Seq<char>, pat: Seq<char>, with: Seq<char>) -> Seq<char>
    decreases s.len(),
{
    if pat.len() == 0 {
        s
    } else {
        proof {
            lemma_first_at(s, pat, 0);
        }
        match split_once(s, pat) {
            Some((head, tail)) => head + with + replaced(tail, pat, with),
            None => s,
        }
    }
}

/// Replaces every occurrence of a pattern.
pub fn replace_text(s: &str, pat: &str, with: &str) -> (r: String)
    requires
        pat@.len() > 0,
    ensures
        r@ == replaced(s@, pat@, with@),
{
    let cs = chars_of(s);
    let sep = chars_of(pat);
    let mut out: String = "".to_string();
    let mut rest: &[char] = cs.as_slice();
    proof {
        reveal_strlit("");
        assert(out@ + replaced(rest@, pat@, with@) =~= replaced(s@, pat@, with@));
    }
    loop
        invariant
            pat@.len() > 0,
            sep@ == pat@,
            out@ + replaced(rest@, pat@, with@) == replaced(s@, pat@, with@),
        decreases rest@.len(),
    {
        proof {
            lemma_first_at(rest@, pat@, 0);
        }
        match cut_once(rest, sep.as_slice()) {
            Some((head, tail)) => {
                let ghost before = out@;
                let piece = string_of(head);
                out.append(piece.as_str());
                out.append(with);
                assert(before + (head@ + with@ + replaced(tail@, pat@, with@)) =~= out@ + replaced(
                    tail@,
                    pat@,
                    with@,
                ));
                rest = tail;
            },
            None => {
                let piece = string_of(rest);
                out.append(piece.as_str());
                return out;
            },
        }
    }
}

// ---------------------------------------------------------------------------
// Trimming
// ---------------------------------------------------------------------------

/// How many white space characters stand at the beginning.
pub open spec fn leading_white(s: Seq<char>) -> nat
    decreases s.len(),
{
    if s.len() > 0 && whitespace(s[0]) {
        1 + leading_white(s.drop_first())
    } else {
        0
    }
}

/// How many white space characters stand at the end.
pub open spec fn trailing_white(s: Seq<char>) -> nat
    decreases s.len(),
{
    if s.len() > 0 && whitespace(s.last()) {
        1 + trailing_white(s.drop_last())
    } else {
        0
    }
}

/// The sequence without its leading white space.
pub open spec fn trim_start(s: Seq<char>) -> Seq<char> {
    s.skip(leading_white(s) as int)
}

/// The sequence without its trailing white space.
pub open spec fn trim_end(s: Seq<char>) -> Seq<char> {
    s.take(s.len() - trailing_white(s))
}

/// The sequence without white space at either end.
pub open spec fn trim(s: Seq<char>) -> Seq<char> {
    trim_end(trim_start(s))
}

/// The leading white space is as long as the run of white space at the front.
pub proof fn lemma_leading_white(s: Seq<char>)
    ensures
        leading_white(s) <= s.len(),
        forall|i: int| 0 <= i < leading_white(s) ==> whitespace(#[trigger] s[i]),
        leading_white(s) < s.len() ==> !whitespace(s[leading_white(s) as int]),
    decreases s.len(),
{
    if s.len() > 0 && whitespace(s[0]) {
        let t = s.drop_first();
        lemma_leading_white(t);
        assert forall|i: int| 0 <= i < leading_white(s) implies whitespace(#[trigger] s[i]) by {
            if i > 0 {
                assert(s[i] == t[i - 1]);
            }
        }
    }
}

/// The trailing white space is as long as the run of white space at the back.
pub proof fn lemma_trailing_white(s: Seq<char>)
    ensures
        trailing_white(s) <= s.len(),
        forall|i: int| s.len() - trailing_white(s) <= i < s.len() ==> whitespace(#[trigger] s[i]),
        trailing_white(s) < s.len() ==> !whitespace(s[s.len() - trailing_white(s) - 1]),
    decreases s.len(),
{
    if s.len() > 0 && whitespace(s.last()) {
        let t = s.drop_last();
        lemma_trailing_white(t);
        assert forall|i: int| s.len() - trailing_white(s) <= i < s.len() implies whitespace(
            #[trigger] s[i],
        ) by {
            if i < t.len() {
                assert(s[i] == t[i]);
            }
        }
    }
}

/// Drops the leading white space.
pub fn trim_front<'a>(s: &'a [char]) -> (r: &'a [char])
    ensures
        r@ == trim_start(s@),
{
    let n: usize = s.len();
    let mut i: usize = 0;
    assert(s@.skip(0) =~= s@);
    while i < n && is_whitespace(s[i])
        invariant
            n == s@.len(),
            i <= n,
            leading_white(s@) == i + leading_white(s@.skip(i as int)),
        decreases n - i,
    {
        assert(s@.skip(i as int).drop_first() =~= s@.skip(i + 1));
        i = i + 1;
    }
    let r = slice_subrange(s, i, n);
    assert(r@ =~= s@.skip(i as int));
    r
}

/// Drops the white space at both ends.
pub fn trimmed<'a>(s: &'a [char]) -> (r: &'a [char])
    ensures
        r@ == trim(s@),
{
    let t = trim_front(s);
    let n: usize = t.len();
    let mut k: usize = n;
    assert(t@.take(n as int) =~= t@);
    while k > 0 && is_whitespace(t[k - 1])
        invariant
            n == t@.len(),
            k <= n,
            trailing_white(t@) == (n - k) + trailing_white(t@.take(k as int)),
        decreases k,
    {
        assert(t@.take(k as int).drop_last() =~= t@.take(k - 1));
        k = k - 1;
    }
    let r = slice_subrange(t, 0, k);
    assert(r@ =~= t@.take(k as int));
    r
}

/// What is left after trimming is empty, or has no white space at its ends.
pub proof fn lemma_trim(s: Seq<char>)
    ensures
        trim(s).len() <= s.len(),
        trim(s).len() > 0 ==> !whitespace(trim(s)[0]) && !whitespace(trim(s).last()),
        forall|i: int|
            0 <= i < trim(s).len() ==> #[trigger] trim(s)[i] == s[i + leading_white(s)],
{
    lemma_leading_white(s);
    let t = trim_start(s);
    lemma_trailing_white(t);
}

/// A sequence without white space at its ends is its own trimming.
pub proof fn lemma_trim_identity(s: Seq<char>)
    requires
        s.len() > 0 ==> !whitespace(s[0]) && !whitespace(s.last()),
    ensures
        trim(s) == s,
{
    assert(leading_white(s) == 0);
    assert(trim_start(s) =~= s);
    assert(trailing_white(s) == 0);
    assert(trim_end(s) =~= s);
}

// ---------------------------------------------------------------------------
// Lines and words
// ---------------------------------------------------------------------------

/// How many characters stand before the first line feed, or in all.
pub open spec fn line_len(s: Seq<char>) -> nat
    decreases s.len(),
{
    if s.len() == 0 || s[0] == '\n' {
        0
    } else {
        1 + line_len(s.drop_first())
    }
}

/// The first line: what stands before the first line feed, without the carriage
/// return directly before that line feed. Without a line feed it is everything.
pub open spec fn first_line(s: Seq<char>) -> Seq<char> {
    let n = line_len(s) as int;
    if n == s.len() {
        s
    } else if n > 0 && s[n - 1] == '\r' {
        s.take(n - 1)
    } else {
        s.take(n)
    }
}

/// What stands behind the first line and its line feed.
pub open spec fn after_line(s: Seq<char>) -> Seq<char> {
    let n = line_len(s) as int;
    if n == s.len() {
        Seq::empty()
    } else {
        s.skip(n + 1)
    }
}

/// The line length lies within the text and, short of its end, on a line feed.
pub proof fn lemma_line_len(s: Seq<char>)
    ensures
        line_len(s) <= s.len(),
        line_len(s) < s.len() ==> s[line_len(s) as int] == '\n',
        forall|i: int| 0 <= i < line_len(s) ==> #[trigger] s[i] != '\n',
    decreases s.len(),
{
    if s.len() == 0 || s[0] == '\n' {
    } else {
        let t = s.drop_first();
        lemma_line_len(t);
        assert forall|i: int| 0 <= i < line_len(s) implies #[trigger] s[i] != '\n' by {
            if i > 0 {
                assert(s[i] == t[i - 1]);
            }
        }
    }
}

/// Splits off the first line: the line, and what stands behind it.
pub fn cut_line<'a>(s: &'a [char]) -> (r: (&'a [char], &'a [char]))
    ensures
        r.0@ == first_line(s@),
        r.1@ == after_line(s@),
        s@.len() > 0 ==> r.1@.len() < s@.len(),
{
    let n: usize = s.len();
    let mut i: usize = 0;
    assert(s@.skip(0) =~= s@);
    while i < n && s[i] != '\n'
        invariant
            n == s@.len(),
            i <= n,
            line_len(s@) == i + line_len(s@.skip(i as int)),
        decreases n - i,
    {
        assert(s@.skip(i as int).drop_first() =~= s@.skip(i + 1));
        i = i + 1;
    }
    assert(line_len(s@) == i);
    if i == n {
        let rest = slice_subrange(s, n, n);
        assert(rest@ =~= Seq::<char>::empty());
        return (s, rest);
    }
    let end: usize = if i > 0 && s[i - 1] == '\r' {
        i - 1
    } else {
        i
    };
    let line = slice_subrange(s, 0, end);
    let rest = slice_subrange(s, i + 1, n);
    assert(line@ =~= s@.take(end as int));
    assert(rest@ =~= s@.skip(i + 1));
    (line, rest)
}

/// How many characters stand before the first white space, or in all.
pub open spec fn word_len(s: Seq<char>) -> nat
    decreases s.len(),
{
    if s.len() == 0 || whitespace(s[0]) {
        0
    } else {
        1 + word_len(s.drop_first())
    }
}

/// The first word, delimited by white space, and what stands behind it.
pub open spec fn next_word(s: Seq<char>) -> Option<(Seq<char>, Seq<char>)> {
    let t = trim_start(s);
    if t.len() == 0 {
        None
    } else {
        Some((t.take(word_len(t) as int), t.skip(word_len(t) as int)))
    }
}

/// A sequence without white space in it.
pub open spec fn is_word(s: Seq<char>) -> bool {
    s.len() > 0 && forall|i: int| 0 <= i < s.len() ==> !whitespace(#[trigger] s[i])
}

proof fn lemma_word_len_at(word: Seq<char>, rest: Seq<char>)
    requires
        forall|i: int| 0 <= i < word.len() ==> !whitespace(#[trigger] word[i]),
        rest.len() > 0 ==> whitespace(rest[0]),
    ensures
        word_len(word + rest) == word.len(),
    decreases word.len(),
{
    let s = word + rest;
    if word.len() == 0 {
        assert(s =~= rest);
    } else {
        let t = word.drop_first();
        assert forall|i: int| 0 <= i < t.len() implies !whitespace(#[trigger] t[i]) by {
            assert(t[i] == word[i + 1]);
        }
        lemma_word_len_at(t, rest);
        assert(s[0] == word[0]);
        assert(s.drop_first() =~= t + rest);
    }
}

/// A word is read off the front, with or without a blank before it.
pub proof fn lemma_next_word(word: Seq<char>, rest: Seq<char>)
    requires
        is_word(word),
        rest.len() > 0 ==> whitespace(rest[0]),
    ensures
        next_word(word + rest) == Some((word, rest)),
        next_word(seq![' '] + word + rest) == Some((word, rest)),
{
    let s = word + rest;
    let t = seq![' '] + word + rest;
    assert(s[0] == word[0]);
    assert(leading_white(s) == 0);
    assert(trim_start(s) =~= s);
    assert(t.drop_first() =~= s);
    assert(leading_white(t) == 1);
    assert(trim_start(t) =~= s);
    lemma_word_len_at(word, rest);
    assert(s.take(word.len() as int) =~= word);
    assert(s.skip(word.len() as int) =~= rest);
}

/// Splits off the first word: the word, and what stands behind it.
pub fn cut_word<'a>(s: &'a [char]) -> (r: Option<(&'a [char], &'a [char])>)
    ensures
        match r {
            Some((w, rest)) => next_word(s@) == Some((w@, rest@)),
            None => next_word(s@) is None,
        },
{
    let t = trim_front(s);
    let n: usize = t.len();
    if n == 0 {
        return None;
    }
    let mut i: usize = 0;
    assert(t@.skip(0) =~= t@);
    while i < n && !is_whitespace(t[i])
        invariant
            n == t@.len(),
            i <= n,
            word_len(t@) == i + word_len(t@.skip(i as int)),
        decreases n - i,
    {
        assert(t@.skip(i as int).drop_first() =~= t@.skip(i + 1));
        i = i + 1;
    }
    let w = slice_subrange(t, 0, i);
    let rest = slice_subrange(t, i, n);
    assert(w@ =~= t@.take(i as int));
    assert(rest@ =~= t@.skip(i as int));
    Some((w, rest))
}

// ---------------------------------------------------------------------------
// Numbers
// ---------------------------------------------------------------------------

/// A decimal digit.
pub open spec fn digit(c: char) -> bool {
    '0' <= c <= '9'
}

/// Every character is a decimal digit.
pub open spec fn all_digits(s: Seq<char>) -> bool {
    forall|i: int| 0 <= i < s.len() ==> digit(#[trigger] s[i])
}

/// The number that a sequence of decimal digits denotes.
pub open spec fn digits_value(s: Seq<char>) -> int
    decreases s.len(),
{
    if s.len() == 0 {
        0
    } else {
        digits_value(s.drop_last()) * 10 + (s.last() as int - '0' as int)
    }
}

/// The sequence without a plus sign in front.
pub open spec fn without_plus(s: Seq<char>) -> Seq<char> {
    if s.len() > 0 && s[0] == '+' {
        s.skip(1)
    } else {
        s
    }
}

/// The unsigned 16 bit number that a text denotes: decimal digits, at least one,
/// perhaps behind a plus sign, and a value that fits.
pub open spec fn number16(s: Seq<char>) -> Option<u16> {
    let d = without_plus(s);
    if d.len() > 0 && all_digits(d) && digits_value(d) <= u16::MAX {
        Some(digits_value(d) as u16)
    } else {
        None
    }
}

/// Reads an unsigned 16 bit number.
pub fn parse_u16(s: &[char]) -> (r: Option<u16>)
    ensures
        r == number16(s@),
{
    let n: usize = s.len();
    let start: usize = if n > 0 && s[0] == '+' {
        1
    } else {
        0
    };
    let d = slice_subrange(s, start, n);
    assert(d@ =~= without_plus(s@));
    if d.len() == 0 {
        return None;
    }
    let mut acc: u32 = 0;
    assert(d@.take(0) =~= Seq::<char>::empty());
    for i in 0..d.len()
        invariant
            d@ == without_plus(s@),
            forall|j: int| 0 <= j < i ==> digit(#[trigger] d@[j]),
            acc <= 65536,
            acc < 65536 ==> digits_value(d@.take(i as int)) == acc,
            acc == 65536 ==> digits_value(d@.take(i as int)) >= 65536,
    {
        let c = d[i];
        if c < '0' || c > '9' {
            assert(!digit(d@[i as int]));
            return None;
        }
        let v: u32 = c as u32 - '0' as u32;
        proof {
            assert(d@.take(i + 1).drop_last() =~= d@.take(i as int));
            assert(d@.take(i + 1).last() == c);
        }
        if acc < 65536 {
            let next: u32 = acc * 10 + v;
            acc = if next < 65536 {
                next
            } else {
                65536
            };
        }
    }
    assert(d@.take(d@.len() as int) =~= d@);
    if acc < 65536 {
        Some(acc as u16)
    } else {
        None
    }
}

/// The character of a decimal digit.
pub open spec fn digit_char(d: int) -> char {
    (('0' as u32) + d) as u32 as char
}

/// A number in decimal, without leading zeros.
pub open spec fn decimal(n: nat) -> Seq<char>
    decreases n,
{
    if n < 10 {
        seq![digit_char(n as int)]
    } else {
        decimal(n / 10).push(digit_char((n % 10) as int))
    }
}

/// Reading the decimal digits of a number gives the number back.
pub proof fn lemma_decimal_reads_back(n: nat)
    ensures
        decimal(n).len() > 0,
        all_digits(decimal(n)),
        digits_value(decimal(n)) == n,
    decreases n,
{
    let s = decimal(n);
    let d = (n % 10) as int;
    let c = digit_char(d);
    assert(digit(c) && c as int - '0' as int == d);
    if n < 10 {
        assert(s.drop_last() =~= Seq::<char>::empty());
        assert(digits_value(s.drop_last()) == 0);
    } else {
        lemma_decimal_reads_back(n / 10);
        let t = decimal(n / 10);
        assert(s.drop_last() =~= t);
        assert forall|i: int| 0 <= i < s.len() implies digit(#[trigger] s[i]) by {
            if i < t.len() {
                assert(s[i] == t[i]);
            }
        }
    }
}

/// A 16 bit number in decimal is a word, and reads back as the number.
pub proof fn lemma_number16_reads_back(n: u16)
    ensures
        is_word(decimal(n as nat)),
        number16(decimal(n as nat)) == Some(n),
{
    let d = decimal(n as nat);
    lemma_decimal_reads_back(n as nat);
    assert(digit(d[0]));
    assert forall|i: int| 0 <= i < d.len() implies !whitespace(#[trigger] d[i]) by {
        assert(digit(d[i]));
    }
}

/// Writes a number in decimal.
pub fn decimal_text(n: u64) -> (r: String)
    ensures
        r@ == decimal(n as nat),
    decreases n,
{
    let d: u8 = (n % 10) as u8;
    let c: char = (48u8 + d) as char;
    assert(c == digit_char((n % 10) as int));
    let mut out = if n < 10 {
        String::new()
    } else {
        decimal_text(n / 10)
    };
    out.push(c);
    assert(out@ =~= decimal(n as nat));
    out
}

/// The character of a hexadecimal digit, in lower case.
pub open spec fn hex_char(d: int) -> char {
    if d < 10 {
        digit_char(d)
    } else {
        (('a' as u32) + (d - 10)) as u32 as char
    }
}

/// A number in hexadecimal, in lower case, padded with zeros to `width` digits.
pub open spec fn hex(n: nat, width: nat) -> Seq<char>
    decreases width,
{
    if width == 0 {
        Seq::empty()
    } else {
        hex(n / 16, (width - 1) as nat).push(hex_char((n % 16) as int))
    }
}

/// Padded hexadecimal digits are lower case hexadecimal digits, `width` of them.
pub proof fn lemma_hex(n: nat, width: nat)
    ensures
        hex(n, width).len() == width,
        forall|i: int|
            0 <= i < width ==> (digit(#[trigger] hex(n, width)[i]) || 'a' <= hex(n, width)[i]
                <= 'f'),
    decreases width,
{
    if width > 0 {
        lemma_hex(n / 16, (width - 1) as nat);
        let t = hex(n / 16, (width - 1) as nat);
        assert forall|i: int| 0 <= i < width implies (digit(#[trigger] hex(n, width)[i]) || 'a'
            <= hex(n, width)[i] <= 'f') by {
            if i < width - 1 {
                assert(hex(n, width)[i] == t[i]);
            }
        }
    }
}

/// Numbers that fit the width are told apart by their hexadecimal digits.
pub proof fn lemma_hex_injective(a: nat, b: nat, width: nat)
    requires
        a < vstd::arithmetic::power::pow(16, width),
        b < vstd::arithmetic::power::pow(16, width),
        hex(a, width) == hex(b, width),
    ensures
        a == b,
    decreases width,
{
    if width == 0 {
        reveal(vstd::arithmetic::power::pow);
    } else {
        let w = (width - 1) as nat;
        assert(vstd::arithmetic::power::pow(16, width) == 16 * vstd::arithmetic::power::pow(16, w))
            by {
            reveal(vstd::arithmetic::power::pow);
        }
        assert(hex(a, width).drop_last() =~= hex(a / 16, w));
        assert(hex(b, width).drop_last() =~= hex(b / 16, w));
        assert(hex(a, width).last() == hex_char((a % 16) as int));
        assert(hex(b, width).last() == hex_char((b % 16) as int));
        lemma_hex_injective(a / 16, b / 16, w);
    }
}

/// Writes a number as padded hexadecimal digits.
pub fn hex_text(n: u64, width: usize) -> (r: String)
    ensures
        r@ == hex(n as nat, width as nat),
    decreases width,
{
    if width == 0 {
        return String::new();
    }
    let d: u8 = (n % 16) as u8;
    let c: char = if d < 10 {
        (48u8 + d) as char
    } else {
        (87u8 + d) as char
    };
    assert(c == hex_char((n % 16) as int));
    let mut out = hex_text(n / 16, width - 1);
    out.push(c);
    out
}

// ---------------------------------------------------------------------------
// Case and order
// ---------------------------------------------------------------------------

/// An ASCII letter in lower case, any other character unchanged.
pub open spec fn ascii_lower(c: char) -> char {
    if 'A' <= c <= 'Z' {
        ((c as u32) + 32) as u32 as char
    } else {
        c
    }
}

/// Two sequences are equal but for the case of ASCII letters.
pub open spec fn same_but_case(a: Seq<char>, b: Seq<char>) -> bool {
    a.len() == b.len() && forall|i: int|
        0 <= i < a.len() ==> ascii_lower(#[trigger] a[i]) == ascii_lower(b[i])
}

/// Lowers an ASCII letter.
pub fn to_ascii_lower(c: char) -> (r: char)
    ensures
        r == ascii_lower(c),
{
    if 'A' <= c && c <= 'Z' {
        (c as u8 + 32) as char
    } else {
        c
    }
}

/// Compares two sequences without regard to the case of ASCII letters.
pub fn same_ignoring_case(a: &[char], b: &[char]) -> (r: bool)
    ensures
        r == same_but_case(a@, b@),
{
    if a.len() != b.len() {
        return false;
    }
    for i in 0..a.len()
        invariant
            a@.len() == b@.len(),
            forall|j: int| 0 <= j < i ==> ascii_lower(#[trigger] a@[j]) == ascii_lower(b@[j]),
    {
        let x = to_ascii_lower(a[i]);
        let y = to_ascii_lower(b[i]);
        if x != y {
            assert(ascii_lower(a@[i as int]) != ascii_lower(b@[i as int]));
            return false;
        }
    }
    true
}

/// Strict lexicographic order by code point, which is also the order of the
/// UTF-8 encodings.
pub open spec fn precedes(a: Seq<char>, b: Seq<char>) -> bool
    decreases a.len(),
{
    if b.len() == 0 {
        false
    } else if a.len() == 0 {
        true
    } else {
        a[0] < b[0] || (a[0] == b[0] && precedes(a.drop_first(), b.drop_first()))
    }
}

/// The order is strict and total.
pub proof fn lemma_precedes_total(a: Seq<char>, b: Seq<char>)
    ensures
        !precedes(a, a),
        a != b ==> (precedes(a, b) <==> !precedes(b, a)),
    decreases a.len(),
{
    if a.len() > 0 {
        lemma_precedes_total(a.drop_first(), b.drop_first());
        if b.len() > 0 && a[0] == b[0] && a != b {
            assert(a.drop_first() != b.drop_first()) by {
                if a.drop_first() == b.drop_first() {
                    assert(a =~= seq![a[0]] + a.drop_first());
                    assert(b =~= seq![b[0]] + b.drop_first());
                }
            }
        }
    } else if b.len() == 0 {
        assert(a =~= b);
    }
}

/// The order is transitive.
pub proof fn lemma_precedes_transitive(a: Seq<char>, b: Seq<char>, c: Seq<char>)
    requires
        precedes(a, b),
        precedes(b, c),
    ensures
        precedes(a, c),
    decreases a.len(),
{
    if a.len() > 0 && a[0] == b[0] && b[0] == c[0] {
        lemma_precedes_transitive(a.drop_first(), b.drop_first(), c.drop_first());
    }
}

/// Whether one sequence comes before another.
pub fn comes_before(a: &[char], b: &[char]) -> (r: bool)
    ensures
        r == precedes(a@, b@),
{
    let mut i: usize = 0;
    assert(a@.skip(0) =~= a@);
    assert(b@.skip(0) =~= b@);
    while i < a.len() && i < b.len() && a[i] == b[i]
        invariant
            i <= a@.len(),
            i <= b@.len(),
            precedes(a@, b@) == precedes(a@.skip(i as int), b@.skip(i as int)),
        decreases a@.len() - i,
    {
        assert(a@.skip(i as int).drop_first() =~= a@.skip(i + 1));
        assert(b@.skip(i as int).drop_first() =~= b@.skip(i + 1));
        i = i + 1;
    }
    if i >= b.len() {
        false
    } else if i >= a.len() {
        true
    } else {
        a[i] < b[i]
    }
}

// ---------------------------------------------------------------------------
// What the operations on texts give
// ---------------------------------------------------------------------------

/// A text is cut at the first place where the separator stands: the pieces and
/// the separator make up the text, and the separator stands nowhere before. A text
/// that is not cut does not hold it.
pub proof fn law_text_is_cut_at_the_first_separator(s: Seq<char>, sep: Seq<char>)
    ensures
        match split_once(s, sep) {
            Some((front, behind)) => s == front + sep + behind && forall|i: int|
                0 <= i < front.len() ==> #[trigger] s.subrange(i, i + sep.len()) != sep,
            None => forall|i: int|
                0 <= i <= s.len() - sep.len() ==> #[trigger] s.subrange(i, i + sep.len()) != sep,
        },
{
    lemma_first_at(s, sep, 0);
    match split_once(s, sep) {
        Some((front, behind)) => {
            let i = first_at(s, sep, 0)->0;
            assert(s.subrange(i, i + sep.len()) == sep);
            assert(s =~= front + sep + behind);
            assert forall|j: int| 0 <= j < front.len() implies #[trigger] s.subrange(
                j,
                j + sep.len(),
            ) != sep by {
                assert(!occurs_at(s, sep, j));
            }
        },
        None => {
            assert forall|j: int| 0 <= j <= s.len() - sep.len() implies #[trigger] s.subrange(
                j,
                j + sep.len(),
            ) != sep by {
                assert(!occurs_at(s, sep, j));
            }
        },
    }
}

/// A text holds another one exactly where something stands before and behind it.
pub proof fn law_text_holds_its_pieces(front: Seq<char>, piece: Seq<char>, behind: Seq<char>)
    ensures
        contains(front + piece + behind, piece),
        starts_with(piece + behind, piece),
        ends_with(front + piece, piece),
        forall|s: Seq<char>|
            #[trigger] contains(s, piece) ==> exists|i: int|
                0 <= i <= s.len() - piece.len() && #[trigger] s.subrange(i, i + piece.len())
                    == piece,
        forall|s: Seq<char>|
            #[trigger] starts_with(s, piece) ==> piece.len() <= s.len() && s.subrange(
                0,
                piece.len() as int,
            ) == piece,
        forall|s: Seq<char>|
            #[trigger] ends_with(s, piece) ==> piece.len() <= s.len() && s.skip(
                s.len() - piece.len(),
            ) == piece,
{
    let all = front + piece + behind;
    let at = front.len() as int;
    assert(all.subrange(at, at + piece.len()) =~= piece);
    assert(occurs_at(all, piece, at));
    assert((piece + behind).subrange(0, piece.len() as int) =~= piece);
    assert((front + piece).subrange(at, at + piece.len()) =~= piece);
    assert forall|s: Seq<char>| #[trigger] contains(s, piece) implies exists|i: int|
        0 <= i <= s.len() - piece.len() && #[trigger] s.subrange(i, i + piece.len()) == piece by {
        let i = choose|i: int| occurs_at(s, piece, i);
        assert(s.subrange(i, i + piece.len()) == piece);
    }
    assert forall|s: Seq<char>| #[trigger] ends_with(s, piece) implies piece.len() <= s.len()
        && s.skip(s.len() - piece.len()) == piece by {
        assert(s.skip(s.len() - piece.len()) =~= s.subrange(
            s.len() - piece.len(),
            s.len() as int,
        ));
    }
}

/// Trimming takes the white space at both ends away and nothing else: whatever
/// white space stands around a text without any at its ends, that text is left.
pub proof fn law_trim_leaves_the_core(front: Seq<char>, core: Seq<char>, behind: Seq<char>)
    requires
        forall|i: int| 0 <= i < front.len() ==> whitespace(#[trigger] front[i]),
        forall|i: int| 0 <= i < behind.len() ==> whitespace(#[trigger] behind[i]),
        core.len() > 0 ==> !whitespace(core[0]) && !whitespace(core.last()),
    ensures
        trim(front + core + behind) == core,
{
    let s = front + core + behind;
    lemma_leading_white(s);
    let n = leading_white(s) as int;
    let t = trim_start(s);
    lemma_trailing_white(t);
    let m = trailing_white(t) as int;
    if core.len() == 0 {
        assert forall|i: int| 0 <= i < s.len() implies whitespace(#[trigger] s[i]) by {
            if i < front.len() {
                assert(s[i] == front[i]);
            } else {
                assert(s[i] == behind[i - front.len()]);
            }
        }
        assert(n == s.len());
        assert(trim(s) =~= core);
    } else {
        assert(s[front.len() as int] == core[0]);
        if n < front.len() {
            assert(s[n] == front[n]);
        }
        assert(n == front.len());
        assert(t =~= core + behind);
        let last = core.len() - 1;
        assert(t[last] == core.last());
        if t.len() - m > core.len() {
            let k = t.len() - m - 1;
            assert(t[k] == behind[k - core.len()]);
        }
        if t.len() - m < core.len() {
            assert(whitespace(t[last]));
        }
        assert(trim(s) =~= core);
    }
}

/// The first line ends at the first line feed; a carriage return before it belongs
/// to the end of the line. What is left stands behind the line feed. A text
/// without a line feed is one line.
pub proof fn law_lines_end_at_line_feeds(line: Seq<char>, rest: Seq<char>)
    requires
        forall|i: int| 0 <= i < line.len() ==> #[trigger] line[i] != '\n',
    ensures
        first_line(line) == line,
        after_line(line) == Seq::<char>::empty(),
        first_line(line + seq!['\r', '\n'] + rest) == line,
        after_line(line + seq!['\r', '\n'] + rest) == rest,
        line.len() == 0 || line.last() != '\r' ==> first_line(line + seq!['\n'] + rest) == line,
        after_line(line + seq!['\n'] + rest) == rest,
{
    lemma_line_len(line);
    let crlf = line + seq!['\r', '\n'] + rest;
    let lf = line + seq!['\n'] + rest;
    let n = line.len() as int;
    lemma_line_len(crlf);
    lemma_line_len(lf);
    assert(line_len(line) == n);
    assert(crlf[n] == '\r' && crlf[n + 1] == '\n');
    assert(lf[n] == '\n');
    if line_len(crlf) < n {
        assert(crlf[line_len(crlf) as int] == line[line_len(crlf) as int]);
    }
    if line_len(lf) < n {
        assert(lf[line_len(lf) as int] == line[line_len(lf) as int]);
    }
    assert(line_len(crlf) == n + 1);
    assert(line_len(lf) == n);
    assert(crlf.take(n) =~= line);
    assert(crlf.skip(n + 2) =~= rest);
    assert(lf.take(n) =~= line);
    assert(lf.skip(n + 1) =~= rest);
    if n > 0 {
        assert(lf[n - 1] == line.last());
    }
}

/// The first word of a text is the run of characters between white space, and a
/// text of white space has none.
pub proof fn law_words_stand_between_white_space(
    front: Seq<char>,
    word: Seq<char>,
    rest: Seq<char>,
)
    requires
        forall|i: int| 0 <= i < front.len() ==> whitespace(#[trigger] front[i]),
        is_word(word),
        rest.len() > 0 ==> whitespace(rest[0]),
    ensures
        next_word(front + word + rest) == Some((word, rest)),
        next_word(front) is None,
{
    let s = front + word + rest;
    lemma_leading_white(s);
    lemma_leading_white(front);
    let n = leading_white(s) as int;
    assert(!whitespace(word[0]));
    assert(s[front.len() as int] == word[0]);
    if n < front.len() {
        assert(s[n] == front[n]);
    }
    assert(n == front.len());
    assert(trim_start(s) =~= word + rest);
    if leading_white(front) < front.len() {
        assert(whitespace(front[leading_white(front) as int]));
    }
    lemma_word_len_at(word, rest);
    assert((word + rest).take(word.len() as int) =~= word);
    assert((word + rest).skip(word.len() as int) =~= rest);
}

/// A number is read from its decimal digits, with or without a plus sign, if it
/// fits 16 bits. Any other character makes it none, and so does having no digit.
pub proof fn law_numbers_are_read(n: nat, s: Seq<char>)
    ensures
        n <= 65535 ==> number16(decimal(n)) == Some(n as u16) && number16(seq!['+'] + decimal(n))
            == Some(n as u16),
        n > 65535 ==> number16(decimal(n)) is None && number16(seq!['+'] + decimal(n)) is None,
        number16(Seq::empty()) is None,
        number16(seq!['+']) is None,
        s.len() > 1 && (exists|i: int| 1 <= i < s.len() && !('0' <= #[trigger] s[i] <= '9'))
            ==> number16(s) is None,
        s.len() > 0 && s[0] != '+' && !('0' <= s[0] <= '9') ==> number16(s) is None,
{
    let d = decimal(n);
    lemma_decimal_reads_back(n);
    assert(digit(d[0]));
    assert(without_plus(d) == d);
    assert((seq!['+'] + d).skip(1) =~= d);
    assert(seq!['+'].skip(1) =~= Seq::<char>::empty());
    if s.len() > 1 && (exists|i: int| 1 <= i < s.len() && !('0' <= #[trigger] s[i] <= '9')) {
        let i = choose|i: int| 1 <= i < s.len() && !('0' <= #[trigger] s[i] <= '9');
        let w = without_plus(s);
        if s[0] == '+' {
            assert(w[i - 1] == s[i]);
            assert(!digit(w[i - 1]));
        } else {
            assert(!digit(w[i]));
        }
    }
    if s.len() > 0 && s[0] != '+' && !('0' <= s[0] <= '9') {
        assert(!digit(without_plus(s)[0]));
    }
}

/// Case does not count for ASCII letters, and for nothing else.
pub proof fn law_case_counts_for_nothing(a: Seq<char>, b: Seq<char>)
    ensures
        same_but_case(a, b) <==> a.len() == b.len() && forall|i: int|
            0 <= i < a.len() ==> {
                let (x, y) = ((#[trigger] a[i]) as u32, b[i] as u32);
                ||| x == y
                ||| 65 <= x <= 90 && y == x + 32
                ||| 65 <= y <= 90 && x == y + 32
            },
{
    assert forall|i: int| 0 <= i < a.len() && a.len() == b.len() implies (ascii_lower(
        #[trigger] a[i],
    ) == ascii_lower(b[i]) <==> {
        let (x, y) = (a[i] as u32, b[i] as u32);
        ||| x == y
        ||| 65 <= x <= 90 && y == x + 32
        ||| 65 <= y <= 90 && x == y + 32
    }) by {
        lemma_lower(a[i], b[i]);
    }
}

proof fn lemma_lower(a: char, b: char)
    ensures
        ascii_lower(a) == ascii_lower(b) <==> (a as u32 == b as u32 || (65 <= a as u32 <= 90 && b as u32
            == a as u32 + 32) || (65 <= b as u32 <= 90 && a as u32 == b as u32 + 32)),
{
}

/// Texts are in the order of a dictionary: the first place where they differ
/// decides, and a text comes before every longer one that begins with it.
pub proof fn law_order_is_that_of_a_dictionary(
    shared: Seq<char>,
    x: char,
    y: char,
    a: Seq<char>,
    b: Seq<char>,
)
    ensures
        x < y ==> precedes(shared + seq![x] + a, shared + seq![y] + b),
        precedes(shared, shared + seq![x] + a),
        !precedes(shared + seq![x] + a, shared),
        x > y ==> !precedes(shared + seq![x] + a, shared + seq![y] + b),
    decreases shared.len(),
{
    let p = shared + seq![x] + a;
    let q = shared + seq![y] + b;
    if shared.len() > 0 {
        let t = shared.drop_first();
        law_order_is_that_of_a_dictionary(t, x, y, a, b);
        assert(p.drop_first() =~= t + seq![x] + a);
        assert(q.drop_first() =~= t + seq![y] + b);
        assert(p[0] == shared[0] && q[0] == shared[0]);
    } else {
        assert(p[0] == x && q[0] == y);
    }
}

/// Replacing puts the new piece in the place of each old one and leaves the rest.
pub proof fn law_each_piece_is_replaced(
    front: Seq<char>,
    pat: Seq<char>,
    rest: Seq<char>,
    with: Seq<char>,
)
    requires
        pat.len() > 0,
    ensures
        !contains(front, pat) ==> replaced(front, pat, with) == front,
        (forall|i: int|
            0 <= i < front.len() ==> #[trigger] (front + pat + rest).subrange(i, i + pat.len())
                != pat) ==> replaced(front + pat + rest, pat, with) == front + with + replaced(
            rest,
            pat,
            with,
        ),
{
    lemma_first_at(front, pat, 0);
    if !contains(front, pat) {
        if let Some(i) = first_at(front, pat, 0) {
            assert(occurs_at(front, pat, i));
        }
    }
    let s = front + pat + rest;
    if forall|i: int| 0 <= i < front.len() ==> #[trigger] s.subrange(i, i + pat.len()) != pat {
        let n = front.len() as int;
        assert(s.subrange(n, n + pat.len()) =~= pat);
        assert(occurs_at(s, pat, n));
        lemma_first_at(s, pat, 0);
        let i = first_at(s, pat, 0)->0;
        if i < n {
            assert(s.subrange(i, i + pat.len()) == pat);
        }
        assert(i == n);
        assert(s.take(n) =~= front);
        assert(s.skip(n + pat.len()) =~= rest);
    }
}

/// A number in decimal is its digits: read one after the other they make the
/// number, and there is no zero in front.
pub proof fn law_decimal_is_the_digits_of_a_number(n: nat)
    ensures
        decimal(n).len() > 0,
        n > 0 ==> decimal(n)[0] != '0',
        n == 0 ==> decimal(n) == seq!['0'],
        decimal(n).last() as int == 48 + n % 10,
        n >= 10 ==> decimal(n).drop_last() == decimal(n / 10),
        forall|i: int| 0 <= i < decimal(n).len() ==> '0' <= #[trigger] decimal(n)[i] <= '9',
    decreases n,
{
    lemma_decimal_reads_back(n);
    assert forall|i: int| 0 <= i < decimal(n).len() implies '0' <= #[trigger] decimal(n)[i]
        <= '9' by {
        assert(digit(decimal(n)[i]));
    }
    if n >= 10 {
        law_decimal_is_the_digits_of_a_number(n / 10);
        assert(decimal(n).drop_last() =~= decimal(n / 10));
        assert(decimal(n)[0] == decimal(n / 10)[0]);
    }
}

/// A number in hexadecimal is its digits in lower case, the last one for what is
/// left of the number by sixteen, the others for the rest.
pub proof fn law_hex_is_the_digits_of_a_number(n: nat, width: nat)
    requires
        width > 0,
    ensures
        hex(n, width).len() == width,
        n % 16 < 10 ==> hex(n, width).last() as int == 48 + n % 16,
        n % 16 >= 10 ==> hex(n, width).last() as int == 97 + (n % 16 - 10),
        hex(n, width).drop_last() == hex(n / 16, (width - 1) as nat),
        hex(n, 0) == Seq::<char>::empty(),
{
    lemma_hex(n, width);
    assert(hex(n, width).drop_last() =~= hex(n / 16, (width - 1) as nat));
}

/// Control characters are those below the blank and those from delete to the end of
/// the second block of controls. Of ASCII, the blank and the controls from tab to
/// carriage return are white space.
pub proof fn law_characters_are_told_apart(c: char)
    ensures
        control(c) <==> (c as u32) < 32 || 127 <= (c as u32) < 160,
        (c as u32) < 128 ==> (whitespace(c) <==> c == ' ' || 9 <= (c as u32) <= 13),
        c as u32 == 0x3000 ==> whitespace(c),
        c as u32 == 0xa0 ==> whitespace(c),
{
}

/// What is known of a list of texts is each of them, in order.
pub proof fn law_texts_are_known_whole(list: Seq<String>, i: int, t: Option<String>)
    ensures
        text_views(list).len() == list.len(),
        0 <= i < list.len() ==> text_views(list)[i] == list[i]@,
        t is None <==> opt_view(t) is None,
        t matches Some(s) ==> opt_view(t) == Some(s@),
{
}

} // verus!
