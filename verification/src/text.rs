use vstd::prelude::*;

verus! {

/// The characters of `s`, in order.
pub fn chars_of(s: &str) -> (out: Vec<char>)
    ensures
        out@ == s@,
{
    broadcast use vstd::string::group_string_axioms;
    let mut out: Vec<char> = Vec::new();
    for c in iter: s.chars()
        invariant
            out@ == iter.seq().take(iter.index() as int),
            iter.seq() == s@,
    {
        out.push(c);
    }
    out
}


/// Unicode `White_Space`, the property that `char::is_whitespace` tests.
pub open spec fn is_white_space(c: char) -> bool {
    ||| ('\u{9}' <= c && c <= '\u{d}')
    ||| c == ' '
    ||| c == '\u{85}'
    ||| c == '\u{a0}'
    ||| c == '\u{1680}'
    ||| ('\u{2000}' <= c && c <= '\u{200a}')
    ||| c == '\u{2028}'
    ||| c == '\u{2029}'
    ||| c == '\u{202f}'
    ||| c == '\u{205f}'
    ||| c == '\u{3000}'
}

/// Whether `c` is white space in the sense of `char::is_whitespace`.
pub fn is_white_space_char(c: char) -> (b: bool)
    ensures
        b == is_white_space(c),
{
    ('\u{9}' <= c && c <= '\u{d}') || c == ' ' || c == '\u{85}' || c == '\u{a0}' || c == '\u{1680}'
        || ('\u{2000}' <= c && c <= '\u{200a}') || c == '\u{2028}' || c == '\u{2029}' || c
        == '\u{202f}' || c == '\u{205f}' || c == '\u{3000}'
}

/// A text is blank when it holds nothing but white space (what `s.trim().is_empty()` tests).
pub open spec fn is_blank_text(s: Seq<char>) -> bool {
    forall|i: int| 0 <= i < s.len() ==> is_white_space(#[trigger] s[i])
}

/// Whether `s` is empty once white space is trimmed from both ends.
pub fn is_blank(s: &str) -> (b: bool)
    ensures
        b == is_blank_text(s@),
{
    let chars = chars_of(s);
    let mut i: usize = 0;
    while i < chars.len()
        invariant
            chars@ == s@,
            i <= chars.len(),
            forall|j: int| 0 <= j < i ==> is_white_space(#[trigger] s@[j]),
        decreases chars.len() - i,
    {
        if !is_white_space_char(chars[i]) {
            return false;
        }
        i = i + 1;
    }
    true
}

/// The code of `c` once an ASCII upper-case letter is mapped to its lower case.
pub open spec fn ascii_lower_code(c: char) -> u32 {
    if 'A' <= c && c <= 'Z' {
        (c as u32 + 32) as u32
    } else {
        c as u32
    }
}

/// Two texts that are equal once ASCII letters are folded to lower case.
pub open spec fn eq_ignore_ascii_case_text(a: Seq<char>, b: Seq<char>) -> bool {
    &&& a.len() == b.len()
    &&& forall|i: int| 0 <= i < a.len() ==> ascii_lower_code(#[trigger] a[i]) == ascii_lower_code(b[i])
}

fn ascii_lower_code_of(c: char) -> (r: u32)
    ensures
        r == ascii_lower_code(c),
{
    if 'A' <= c && c <= 'Z' {
        c as u32 + 32
    } else {
        c as u32
    }
}

/// Whether `a` and `b` match ASCII case-insensitively, as `str::eq_ignore_ascii_case` decides.
pub fn eq_ignore_ascii_case(a: &str, b: &str) -> (r: bool)
    ensures
        r == eq_ignore_ascii_case_text(a@, b@),
{
    let x = chars_of(a);
    let y = chars_of(b);
    if x.len() != y.len() {
        return false;
    }
    let mut i: usize = 0;
    while i < x.len()
        invariant
            x@ == a@,
            y@ == b@,
            x.len() == y.len(),
            i <= x.len(),
            forall|j: int| 0 <= j < i ==> ascii_lower_code(#[trigger] a@[j]) == ascii_lower_code(b@[j]),
        decreases x.len() - i,
    {
        if ascii_lower_code_of(x[i]) != ascii_lower_code_of(y[i]) {
            return false;
        }
        i = i + 1;
    }
    true
}


/// The decimal digit for `d`, for `d` below ten.
pub open spec fn digit_char(d: int) -> char {
    (48 + d) as char
}

/// The decimal numeral of `n`, without sign or leading zeros (as `usize::to_string` writes it).
pub open spec fn decimal_text(n: nat) -> Seq<char>
    decreases n,
{
    if n < 10 {
        seq![digit_char(n as int)]
    } else {
        decimal_text(n / 10) + seq![digit_char((n % 10) as int)]
    }
}

fn digit_str(d: usize) -> (s: &'static str)
    requires
        d < 10,
    ensures
        s@ == seq![digit_char(d as int)],
{
    proof {
        reveal_strlit("0");
        reveal_strlit("1");
        reveal_strlit("2");
        reveal_strlit("3");
        reveal_strlit("4");
        reveal_strlit("5");
        reveal_strlit("6");
        reveal_strlit("7");
        reveal_strlit("8");
        reveal_strlit("9");
    }
    if d == 0 {
        "0"
    } else if d == 1 {
        "1"
    } else if d == 2 {
        "2"
    } else if d == 3 {
        "3"
    } else if d == 4 {
        "4"
    } else if d == 5 {
        "5"
    } else if d == 6 {
        "6"
    } else if d == 7 {
        "7"
    } else if d == 8 {
        "8"
    } else {
        "9"
    }
}

/// The decimal numeral of `n`.
pub fn decimal(n: usize) -> (s: String)
    ensures
        s@ == decimal_text(n as nat),
    decreases n,
{
    if n < 10 {
        String::from_str(digit_str(n))
    } else {
        let mut s = decimal(n / 10);
        s.append(digit_str(n % 10));
        s
    }
}


/// `pat` occurs in `s` at position `i`.
pub open spec fn occurs_at(s: Seq<char>, pat: Seq<char>, i: int) -> bool {
    &&& 0 <= i
    &&& i + pat.len() <= s.len()
    &&& forall|j: int| 0 <= j < pat.len() ==> #[trigger] s[i + j] == pat[j]
}

/// The first position at or after `i` where `pat` occurs in `s`.
pub open spec fn first_occurrence_from(s: Seq<char>, pat: Seq<char>, i: int) -> Option<int>
    decreases s.len() + 1 - i,
{
    if i < 0 || i + pat.len() > s.len() {
        None
    } else if occurs_at(s, pat, i) {
        Some(i)
    } else {
        first_occurrence_from(s, pat, i + 1)
    }
}

/// The first position at or after `i` that is not white space (or the length of `s`).
pub open spec fn skip_white_space(s: Seq<char>, i: int) -> int
    decreases s.len() - i,
{
    if i < 0 || i >= s.len() || !is_white_space(s[i]) {
        i
    } else {
        skip_white_space(s, i + 1)
    }
}

/// The first position at or after `i` that is white space (or the length of `s`).
pub open spec fn skip_word(s: Seq<char>, i: int) -> int
    decreases s.len() - i,
{
    if i < 0 || i >= s.len() || is_white_space(s[i]) {
        i
    } else {
        skip_word(s, i + 1)
    }
}

/// The first word of `s` at or after position `i`: what `split_whitespace().next()` gives
/// on the text from `i` on.
pub open spec fn first_word_from(s: Seq<char>, i: int) -> Option<Seq<char>> {
    let a = skip_white_space(s, i);
    if a >= s.len() {
        None
    } else {
        Some(s.subrange(a, skip_word(s, a)))
    }
}

/// The first word after the first occurrence of `marker` in `line`, if both exist.
pub open spec fn word_after_marker(line: Seq<char>, marker: Seq<char>) -> Option<Seq<char>> {
    match first_occurrence_from(line, marker, 0) {
        None => None,
        Some(i) => first_word_from(line, i + marker.len()),
    }
}

proof fn lemma_skip_white_space_bounds(s: Seq<char>, i: int)
    requires
        0 <= i <= s.len(),
    ensures
        i <= skip_white_space(s, i) <= s.len(),
    decreases s.len() - i,
{
    if i < s.len() && is_white_space(s[i]) {
        lemma_skip_white_space_bounds(s, i + 1);
    }
}

proof fn lemma_skip_word_bounds(s: Seq<char>, i: int)
    requires
        0 <= i <= s.len(),
    ensures
        i <= skip_word(s, i) <= s.len(),
    decreases s.len() - i,
{
    if i < s.len() && !is_white_space(s[i]) {
        lemma_skip_word_bounds(s, i + 1);
    }
}

/// The first position, counted from `lo`, where `marker` occurs within `chars[lo..hi]`.
pub fn first_occurrence_in(chars: &Vec<char>, lo: usize, hi: usize, marker: &Vec<char>) -> (r:
    Option<usize>)
    requires
        lo <= hi <= chars.len(),
    ensures
        match r {
            None => first_occurrence_from(chars@.subrange(lo as int, hi as int), marker@, 0) is None,
            Some(i) => {
                &&& first_occurrence_from(chars@.subrange(lo as int, hi as int), marker@, 0) == Some(
                    i as int,
                )
                &&& i + marker.len() <= hi - lo
            },
        },
{
    let ghost line = chars@.subrange(lo as int, hi as int);
    let n = hi - lo;
    let m = marker.len();
    if m > n {
        return None;
    }
    let mut i: usize = 0;
    while i <= n - m
        invariant
            line == chars@.subrange(lo as int, hi as int),
            lo <= hi <= chars.len(),
            n == hi - lo,
            m == marker.len(),
            m <= n,
            i <= n - m + 1,
            first_occurrence_from(line, marker@, 0) == first_occurrence_from(line, marker@, i as int),
        decreases n - m + 1 - i,
    {
        let mut j: usize = 0;
        let mut same = true;
        while j < m
            invariant
                line == chars@.subrange(lo as int, hi as int),
                lo <= hi <= chars.len(),
                n == hi - lo,
                m == marker.len(),
                i + m <= n,
                j <= m,
                same == (forall|k: int| 0 <= k < j ==> #[trigger] line[i + k] == marker@[k]),
            decreases m - j,
        {
            if chars[lo + i + j] != marker[j] {
                same = false;
            }
            assert(line[i + j as int] == chars@[lo + i + j]);
            j = j + 1;
        }
        if same {
            return Some(i);
        }
        i = i + 1;
    }
    None
}

/// Finds the word after the first occurrence of `marker` within `chars[lo..hi]`, and gives its
/// bounds in `chars`.
pub fn word_after_marker_in(chars: &Vec<char>, lo: usize, hi: usize, marker: &Vec<char>) -> (r:
    Option<(usize, usize)>)
    requires
        lo <= hi <= chars.len(),
    ensures
        match r {
            None => word_after_marker(chars@.subrange(lo as int, hi as int), marker@) is None,
            Some((a, b)) => {
                &&& lo <= a < b <= hi
                &&& word_after_marker(chars@.subrange(lo as int, hi as int), marker@) == Some(
                    chars@.subrange(a as int, b as int),
                )
            },
        },
{
    let ghost line = chars@.subrange(lo as int, hi as int);
    let n = hi - lo;
    let m = marker.len();
    let i = match first_occurrence_in(chars, lo, hi, marker) {
        None => {
            return None;
        },
        Some(i) => i,
    };
    let mut p: usize = i + m;
    proof {
        lemma_skip_white_space_bounds(line, p as int);
    }
    while p < n && is_white_space_char(chars[lo + p])
        invariant
            line == chars@.subrange(lo as int, hi as int),
            lo <= hi <= chars.len(),
            n == hi - lo,
            i + m <= p <= n,
            skip_white_space(line, (i + m) as int) == skip_white_space(line, p as int),
        decreases n - p,
    {
        assert(line[p as int] == chars@[lo + p]);
        p = p + 1;
    }
    if p < n {
        assert(line[p as int] == chars@[lo + p]);
    }
    if p == n {
        return None;
    }
    let mut q: usize = p;
    while q < n && !is_white_space_char(chars[lo + q])
        invariant
            line == chars@.subrange(lo as int, hi as int),
            lo <= hi <= chars.len(),
            n == hi - lo,
            p <= q <= n,
            skip_word(line, p as int) == skip_word(line, q as int),
        decreases n - q,
    {
        assert(line[q as int] == chars@[lo + q]);
        q = q + 1;
    }
    if q < n {
        assert(line[q as int] == chars@[lo + q]);
    }
    assert(line.subrange(p as int, q as int) =~= chars@.subrange(lo + p, lo + q));
    Some((lo + p, lo + q))
}


/// The position of the first line feed at or after `i` (or the length of `s`).
pub open spec fn next_line_feed(s: Seq<char>, i: int) -> int
    decreases s.len() - i,
{
    if i < 0 || i >= s.len() || s[i] == '\n' {
        i
    } else {
        next_line_feed(s, i + 1)
    }
}

/// Where the line that starts at `start` ends, its terminator left out: a line ends at the next
/// line feed, and a carriage return just before that line feed belongs to the terminator.
pub open spec fn line_end(s: Seq<char>, start: int) -> int {
    let feed = next_line_feed(s, start);
    if feed < s.len() && feed > start && s[feed - 1] == '\r' {
        feed - 1
    } else {
        feed
    }
}

/// The lines of `s` from position `start` on, as `str::lines` gives them: split at `\n` or
/// `\r\n`, terminators left out, and no empty line after a final terminator.
pub open spec fn lines_from(s: Seq<char>, start: int) -> Seq<Seq<char>>
    decreases s.len() + 1 - start,
{
    if start < 0 || start >= s.len() {
        seq![]
    } else {
        proof {
            lemma_next_line_feed_bounds(s, start);
        }
        seq![s.subrange(start, line_end(s, start))] + lines_from(s, next_line_feed(s, start) + 1)
    }
}

/// The lines of `s`, as `str::lines` gives them.
pub open spec fn lines(s: Seq<char>) -> Seq<Seq<char>> {
    lines_from(s, 0)
}

pub proof fn lemma_next_line_feed_bounds(s: Seq<char>, i: int)
    requires
        0 <= i <= s.len(),
    ensures
        i <= next_line_feed(s, i) <= s.len(),
        next_line_feed(s, i) < s.len() ==> s[next_line_feed(s, i)] == '\n',
    decreases s.len() - i,
{
    if i < s.len() && s[i] != '\n' {
        lemma_next_line_feed_bounds(s, i + 1);
    }
}

/// The position of the first line feed in `chars` at or after `i` (or the length of `chars`).
pub fn next_line_feed_in(chars: &Vec<char>, i: usize) -> (r: usize)
    requires
        i <= chars.len(),
    ensures
        r == next_line_feed(chars@, i as int),
        i <= r <= chars.len(),
{
    let mut k = i;
    while k < chars.len() && chars[k] != '\n'
        invariant
            i <= k <= chars.len(),
            next_line_feed(chars@, i as int) == next_line_feed(chars@, k as int),
        decreases chars.len() - k,
    {
        k = k + 1;
    }
    k
}


/// Appends a copy of each of `items` to `args`.
pub fn push_all(args: &mut Vec<String>, items: &[&str])
    ensures
        final(args).deep_view() == old(args).deep_view() + items@.map_values(|s: &str| s@),
{
    let ghost start = args.deep_view();
    let mut i: usize = 0;
    while i < items.len()
        invariant
            i <= items.len(),
            args.deep_view() == start + items@.subrange(0, i as int).map_values(|s: &str| s@),
        decreases items.len() - i,
    {
        let ghost before = args.deep_view();
        args.push(String::from_str(items[i]));
        assert(args.deep_view() =~= before.push(items[i as int]@));
        assert(items@.subrange(0, i + 1).map_values(|s: &str| s@) =~= items@.subrange(
            0,
            i as int,
        ).map_values(|s: &str| s@).push(items[i as int]@));
        i = i + 1;
    }
    assert(items@.subrange(0, i as int) =~= items@);
}

/// Appends `item` to `args`.
pub fn push_text(args: &mut Vec<String>, item: &str)
    ensures
        final(args).deep_view() == old(args).deep_view().push(item@),
{
    let ghost before = args.deep_view();
    args.push(String::from_str(item));
    assert(args.deep_view() =~= before.push(item@));
}


/// `items` joined with `sep` between each two neighbours (what `[&str]::join` gives).
pub open spec fn joined(items: Seq<Seq<char>>, sep: Seq<char>) -> Seq<char>
    decreases items.len(),
{
    if items.len() == 0 {
        seq![]
    } else if items.len() == 1 {
        items[0]
    } else {
        joined(items.drop_last(), sep) + sep + items.last()
    }
}

/// `items` joined with `sep`.
pub fn join(items: &[&str], sep: &str) -> (r: String)
    ensures
        r@ == joined(items@.map_values(|s: &str| s@), sep@),
{
    let ghost texts = items@.map_values(|s: &str| s@);
    let mut r = String::new();
    let mut i: usize = 0;
    while i < items.len()
        invariant
            texts == items@.map_values(|s: &str| s@),
            i <= items.len(),
            r@ == joined(texts.subrange(0, i as int), sep@),
        decreases items.len() - i,
    {
        if i > 0 {
            r.append(sep);
        }
        r.append(items[i]);
        assert(texts.subrange(0, i + 1).drop_last() =~= texts.subrange(0, i as int));
        if i == 0 {
            assert(r@ =~= joined(texts.subrange(0, 1), sep@));
        }
        i = i + 1;
    }
    assert(texts.subrange(0, i as int) =~= texts);
    r
}


proof fn lemma_first_occurrence_occurs(s: Seq<char>, pat: Seq<char>, i: int)
    requires
        0 <= i,
    ensures
        first_occurrence_from(s, pat, i) matches Some(k) ==> i <= k && occurs_at(s, pat, k),
    decreases s.len() + 1 - i,
{
    if i + pat.len() <= s.len() && !occurs_at(s, pat, i) {
        lemma_first_occurrence_occurs(s, pat, i + 1);
    }
}

proof fn lemma_skip_white_space_stops(s: Seq<char>, i: int)
    requires
        0 <= i <= s.len(),
    ensures
        skip_white_space(s, i) < s.len() ==> !is_white_space(s[skip_white_space(s, i)]),
    decreases s.len() - i,
{
    if i < s.len() && is_white_space(s[i]) {
        lemma_skip_white_space_stops(s, i + 1);
    }
}

proof fn lemma_skip_word_is_word(s: Seq<char>, i: int)
    requires
        0 <= i <= s.len(),
    ensures
        forall|k: int| i <= k < skip_word(s, i) ==> !is_white_space(#[trigger] s[k]),
    decreases s.len() - i,
{
    if i < s.len() && !is_white_space(s[i]) {
        lemma_skip_word_is_word(s, i + 1);
    }
}

/// The value after a marker is a word: it is not empty, holds no white space, and stands in the
/// line after an occurrence of the marker.
pub proof fn lemma_word_after_marker_is_a_word(line: Seq<char>, marker: Seq<char>)
    ensures
        word_after_marker(line, marker) matches Some(w) ==> {
            &&& w.len() > 0
            &&& forall|k: int| 0 <= k < w.len() ==> !is_white_space(#[trigger] w[k])
            &&& exists|i: int, a: int|
                #[trigger] occurs_at(line, marker, i) && i + marker.len() <= a && a + w.len()
                    <= line.len() && #[trigger] line.subrange(a, a + w.len()) == w
        },
{
    lemma_first_occurrence_occurs(line, marker, 0);
    if let Some(i) = first_occurrence_from(line, marker, 0) {
        let from = i + marker.len();
        lemma_skip_white_space_bounds(line, from);
        let a = skip_white_space(line, from);
        if a < line.len() {
            lemma_skip_white_space_stops(line, from);
            lemma_skip_word_bounds(line, a);
            lemma_skip_word_is_word(line, a);
            let b = skip_word(line, a);
            let w = line.subrange(a, b);
            lemma_skip_word_bounds(line, a + 1);
            assert(b == skip_word(line, a + 1));
            assert forall|k: int| 0 <= k < w.len() implies !is_white_space(#[trigger] w[k]) by {
                assert(w[k] == line[a + k]);
            }
            assert(line.subrange(a, a + w.len()) == w);
        }
    }
}

/// ASCII case folding maps each upper-case letter `A`..=`Z` to its lower-case letter (its code
/// plus 32) and leaves every other character as it is.
pub proof fn lemma_ascii_case_folding(c: char)
    ensures
        'A' <= c && c <= 'Z' ==> ascii_lower_code(c) == c as u32 + 32 && 'a' as u32 <= ascii_lower_code(c)
            <= 'z' as u32,
        !('A' <= c && c <= 'Z') ==> ascii_lower_code(c) == c as u32,
{
}

proof fn lemma_case_variant_chars(x: char, y: char)
    ensures
        (x == y || ('a' <= y && y <= 'z' && x as u32 + 32 == y as u32)) ==> ascii_lower_code(x)
            == ascii_lower_code(y),
        ascii_lower_code(x) == ascii_lower_code(y) ==> (x == y || ('a' <= y && y <= 'z' && x as u32
            + 32 == y as u32) || ('a' <= x && x <= 'z' && y as u32 + 32 == x as u32)),
{
    if x != y && 'a' <= y && y <= 'z' && x as u32 + 32 == y as u32 {
        assert(97 <= y as u32);
        assert(x as u32 >= 65);
        assert('A' <= x);
    }
    if ascii_lower_code(x) == ascii_lower_code(y) {
        if 'A' <= x && x <= 'Z' && !('A' <= y && y <= 'Z') {
            assert(y as u32 >= 97);
            assert('a' <= y);
        }
        if 'A' <= y && y <= 'Z' && !('A' <= x && x <= 'Z') {
            assert(x as u32 >= 97);
            assert('a' <= x);
        }
    }
}

/// Two texts of equal length match ASCII case-insensitively when each character of the first is
/// the same as the second's, or the upper-case form of the second's lower-case letter.
pub proof fn lemma_case_variants_match(a: Seq<char>, b: Seq<char>)
    requires
        a.len() == b.len(),
        forall|k: int|
            0 <= k < a.len() ==> #[trigger] a[k] == b[k] || ('a' <= b[k] && b[k] <= 'z' && a[k] as u32
                + 32 == b[k] as u32),
    ensures
        eq_ignore_ascii_case_text(a, b),
{
    assert forall|k: int| 0 <= k < a.len() implies ascii_lower_code(#[trigger] a[k]) == ascii_lower_code(
        b[k],
    ) by {
        lemma_case_variant_chars(a[k], b[k]);
    }
}

/// Texts that match ASCII case-insensitively differ only where one has an ASCII letter in upper
/// case and the other the same letter in lower case.
pub proof fn lemma_matching_texts_differ_only_in_case(a: Seq<char>, b: Seq<char>)
    requires
        eq_ignore_ascii_case_text(a, b),
    ensures
        a.len() == b.len(),
        forall|k: int|
            0 <= k < a.len() ==> #[trigger] a[k] == b[k] || ('a' <= b[k] && b[k] <= 'z' && a[k] as u32
                + 32 == b[k] as u32) || ('a' <= a[k] && a[k] <= 'z' && b[k] as u32 + 32 == a[k] as u32),
{
    assert forall|k: int| 0 <= k < a.len() implies #[trigger] a[k] == b[k] || ('a' <= b[k] && b[k]
        <= 'z' && a[k] as u32 + 32 == b[k] as u32) || ('a' <= a[k] && a[k] <= 'z' && b[k] as u32 + 32
        == a[k] as u32) by {
        lemma_case_variant_chars(a[k], b[k]);
    }
}

proof fn lemma_decimal_text_shape(n: nat)
    ensures
        decimal_text(n).len() >= 1,
        n < 10 <==> decimal_text(n).len() == 1,
        decimal_text(n).last() == digit_char((n % 10) as int),
    decreases n,
{
    if n >= 10 {
        lemma_decimal_text_shape(n / 10);
    }
}

/// Different numbers have different numerals, so labels numbered by position never collide.
pub proof fn lemma_decimal_text_injective(m: nat, n: nat)
    requires
        m != n,
    ensures
        decimal_text(m) != decimal_text(n),
    decreases m + n,
{
    lemma_decimal_text_shape(m);
    lemma_decimal_text_shape(n);
    if decimal_text(m) == decimal_text(n) {
        if m < 10 && n < 10 {
            assert(decimal_text(m)[0] == digit_char(m as int));
            assert(decimal_text(n)[0] == digit_char(n as int));
        } else if m >= 10 && n >= 10 {
            assert(digit_char((m % 10) as int) == digit_char((n % 10) as int));
            assert(m % 10 == n % 10);
            if m / 10 != n / 10 {
                lemma_decimal_text_injective(m / 10, n / 10);
                assert(decimal_text(m).drop_last() =~= decimal_text(m / 10));
                assert(decimal_text(n).drop_last() =~= decimal_text(n / 10));
            }
        }
    }
}

} // verus!
