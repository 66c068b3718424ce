//! Text operations on the characters of a string.
use vstd::prelude::*;
use vstd::string::*;

verus! {

/// Unicode white space.
pub open spec fn is_space(c: char) -> bool {
    ||| '\u{9}' <= c <= '\u{d}'
    ||| c == ' '
    ||| c == '\u{85}'
    ||| c == '\u{a0}'
    ||| c == '\u{1680}'
    ||| '\u{2000}' <= c <= '\u{200a}'
    ||| c == '\u{2028}'
    ||| c == '\u{2029}'
    ||| c == '\u{202f}'
    ||| c == '\u{205f}'
    ||| c == '\u{3000}'
}

/// A text without its leading white space.
pub open spec fn trim_start(s: Seq<char>) -> Seq<char>
    decreases s.len(),
{
    if s.len() > 0 && is_space(s[0]) {
        trim_start(s.drop_first())
    } else {
        s
    }
}

/// A text without its trailing white space.
pub open spec fn trim_end(s: Seq<char>) -> Seq<char>
    decreases s.len(),
{
    if s.len() > 0 && is_space(s.last()) {
        trim_end(s.drop_last())
    } else {
        s
    }
}

/// A text without white space at either end.
pub open spec fn trimmed(s: Seq<char>) -> Seq<char> {
    trim_end(trim_start(s))
}

/// The number of characters before the first white space.
pub open spec fn word_len(s: Seq<char>) -> nat
    decreases s.len(),
{
    if s.len() > 0 && !is_space(s[0]) {
        1 + word_len(s.drop_first())
    } else {
        0
    }
}

/// The maximal runs of characters other than white space, in order.
pub open spec fn words(s: Seq<char>) -> Seq<Seq<char>>
    decreases s.len(),
{
    if s.len() == 0 {
        Seq::empty()
    } else if is_space(s[0]) {
        words(s.drop_first())
    } else {
        proof {
            lemma_word_len(s);
        }
        seq![s.take(word_len(s) as int)] + words(s.skip(word_len(s) as int))
    }
}

/// A word is no longer than the text it stands in.
pub proof fn lemma_word_len(s: Seq<char>)
    ensures
        word_len(s) <= s.len(),
    decreases s.len(),
{
    if s.len() > 0 && !is_space(s[0]) {
        lemma_word_len(s.drop_first());
    }
}

/// The position of the first `c`, or the length where there is none.
pub open spec fn find(s: Seq<char>, c: char) -> nat
    decreases s.len(),
{
    if s.len() == 0 || s[0] == c {
        0
    } else {
        1 + find(s.drop_first(), c)
    }
}

/// The pieces of a text between the occurrences of `c`.
pub open spec fn split_on(s: Seq<char>, c: char) -> Seq<Seq<char>>
    decreases s.len(),
{
    let i = find(s, c) as int;
    if i >= s.len() {
        seq![s]
    } else {
        seq![s.take(i)] + split_on(s.skip(i + 1), c)
    }
}

/// A line without the carriage return that came before its line feed.
pub open spec fn without_cr(s: Seq<char>) -> Seq<char> {
    if s.len() > 0 && s.last() == '\r' {
        s.drop_last()
    } else {
        s
    }
}

/// The lines of a text, without their line ends.
pub open spec fn lines(s: Seq<char>) -> Seq<Seq<char>>
    decreases s.len(),
{
    let i = find(s, '\n') as int;
    if s.len() == 0 {
        Seq::empty()
    } else if i >= s.len() {
        seq![s]
    } else {
        seq![without_cr(s.take(i))] + lines(s.skip(i + 1))
    }
}

/// Whether `p` begins `s`.
pub open spec fn begins(s: Seq<char>, p: Seq<char>) -> bool {
    p.len() <= s.len() && s.take(p.len() as int) == p
}

/// Whether `p` stands at position `i` of `s`.
pub open spec fn occurs_at(s: Seq<char>, p: Seq<char>, i: int) -> bool {
    0 <= i && i + p.len() <= s.len() && s.subrange(i, i + p.len()) == p
}

/// Whether `p` stands anywhere in `s`.
pub open spec fn occurs(s: Seq<char>, p: Seq<char>) -> bool {
    exists|i: int| #[trigger] occurs_at(s, p, i)
}

/// `s` with every occurrence of `p`, from the left and without overlap, replaced.
pub open spec fn replaced(s: Seq<char>, p: Seq<char>, by: Seq<char>) -> Seq<char>
    decreases s.len(),
{
    if p.len() == 0 || s.len() < p.len() {
        s
    } else if s.take(p.len() as int) == p {
        by + replaced(s.skip(p.len() as int), p, by)
    } else {
        seq![s[0]] + replaced(s.drop_first(), p, by)
    }
}

/// The decimal digit of a number below ten.
pub open spec fn digit(d: nat) -> char {
    (48 + d) as char
}

/// A number in decimal.
pub open spec fn decimal(n: nat) -> Seq<char>
    decreases n,
{
    if n < 10 {
        seq![digit(n)]
    } else {
        decimal(n / 10).push(digit(n % 10))
    }
}

pub open spec fn is_digit(c: char) -> bool {
    '0' <= c <= '9'
}

pub open spec fn all_digits(s: Seq<char>) -> bool {
    forall|i: int| 0 <= i < s.len() ==> is_digit(#[trigger] s[i])
}

/// The number that a text of decimal digits stands for.
pub open spec fn digits_value(s: Seq<char>) -> nat
    decreases s.len(),
{
    if s.len() == 0 {
        0
    } else {
        digits_value(s.drop_last()) * 10 + (s.last() as nat - 48) as nat
    }
}

/// A text without one leading plus sign.
pub open spec fn without_plus(s: Seq<char>) -> Seq<char> {
    if s.len() > 0 && s[0] == '+' {
        s.drop_first()
    } else {
        s
    }
}

/// The number at most `max` that a text reads as: decimal digits, at least one,
/// with or without a plus sign in front.
pub open spec fn parsed(s: Seq<char>, max: nat) -> Option<nat> {
    let d = without_plus(s);
    if d.len() > 0 && all_digits(d) && digits_value(d) <= max {
        Some(digits_value(d))
    } else {
        None
    }
}

/// The characters of each string.
pub open spec fn views(s: Seq<&str>) -> Seq<Seq<char>> {
    s.map_values(|x: &str| x@)
}

/// The characters of a string.
pub fn chars_of(s: &str) -> (r: Vec<char>)
    ensures
        r@ == s@,
{
    let mut r: Vec<char> = Vec::new();
    for c in it: s.chars()
        invariant
            it.seq() == s@,
            r@ == s@.take(it.index()),
    {
        r.push(c);
    }
    assert(s@.take(s@.len() as int) == s@);
    r
}

/// Whether two strings hold the same characters.
pub fn same(a: &str, b: &str) -> (r: bool)
    ensures
        r == (a@ == b@),
{
    a.to_owned() == b.to_owned()
}

/// Whether a character is white space.
pub fn space(c: char) -> (r: bool)
    ensures
        r == is_space(c),
{
    ('\u{9}' <= c && c <= '\u{d}') || c == ' ' || c == '\u{85}' || c == '\u{a0}' || c == '\u{1680}'
        || ('\u{2000}' <= c && c <= '\u{200a}') || c == '\u{2028}' || c == '\u{2029}' || c
        == '\u{202f}' || c == '\u{205f}' || c == '\u{3000}'
}

/// Whether `s` begins with `p`.
pub fn starts_with(s: &str, p: &str) -> (r: bool)
    ensures
        r == begins(s@, p@),
{
    let n: usize = p.unicode_len();
    n <= s.unicode_len() && same(s.substring_char(0, n), p)
}

/// What follows `p` in a string that begins with it.
pub fn strip_prefix<'a>(s: &'a str, p: &str) -> (r: Option<&'a str>)
    ensures
        r is Some <==> begins(s@, p@),
        r matches Some(t) ==> t@ == s@.skip(p@.len() as int),
{
    if starts_with(s, p) {
        Some(s.substring_char(p.unicode_len(), s.unicode_len()))
    } else {
        None
    }
}

/// Whether `p` stands anywhere in `s`.
pub fn contains(s: &str, p: &str) -> (r: bool)
    ensures
        r == occurs(s@, p@),
{
    let n: usize = s.unicode_len();
    let m: usize = p.unicode_len();
    if m > n {
        assert(!occurs(s@, p@));
        return false;
    }
    let mut i: usize = 0;
    while i <= n - m
        invariant
            n == s@.len(),
            m == p@.len(),
            m <= n,
            m == 0 ==> i == 0,
            i <= n - m + 1,
            forall|j: int| j < i ==> !#[trigger] occurs_at(s@, p@, j),
        decreases n - i,
    {
        if same(s.substring_char(i, i + m), p) {
            assert(occurs_at(s@, p@, i as int));
            return true;
        }
        assert(m == 0 ==> s@.subrange(i as int, i + m) == p@);
        i = i + 1;
    }
    false
}

/// `s` without white space at either end.
pub fn trim<'a>(s: &'a str) -> (r: &'a str)
    ensures
        r@ == trimmed(s@),
{
    let chars: Vec<char> = chars_of(s);
    let n: usize = chars.len();
    let mut lo: usize = 0;
    assert(s@.skip(0) == s@);
    while lo < n && space(chars[lo])
        invariant
            chars@ == s@,
            n == s@.len(),
            lo <= n,
            trim_start(s@) == trim_start(s@.skip(lo as int)),
        decreases n - lo,
    {
        assert(s@.skip(lo as int).drop_first() == s@.skip(lo + 1));
        lo = lo + 1;
    }
    assert(trim_start(s@) == s@.skip(lo as int));
    let mut hi: usize = n;
    assert(s@.subrange(lo as int, n as int) == s@.skip(lo as int));
    while lo < hi && space(chars[hi - 1])
        invariant
            chars@ == s@,
            n == s@.len(),
            lo <= hi <= n,
            trimmed(s@) == trim_end(s@.subrange(lo as int, hi as int)),
        decreases hi - lo,
    {
        assert(s@.subrange(lo as int, hi as int).drop_last() == s@.subrange(lo as int, hi - 1));
        hi = hi - 1;
    }
    s.substring_char(lo, hi)
}

/// The words of `s`.
pub fn split_whitespace<'a>(s: &'a str) -> (r: Vec<&'a str>)
    ensures
        views(r@) == words(s@),
{
    let chars: Vec<char> = chars_of(s);
    let n: usize = chars.len();
    let mut r: Vec<&'a str> = Vec::new();
    let mut i: usize = 0;
    assert(s@.skip(0) == s@);
    assert(views(r@) + words(s@) == words(s@));
    while i < n
        invariant
            chars@ == s@,
            n == s@.len(),
            i <= n,
            views(r@) + words(s@.skip(i as int)) == words(s@),
        decreases n - i,
    {
        let ghost rest = s@.skip(i as int);
        if space(chars[i]) {
            assert(rest.drop_first() == s@.skip(i + 1));
            i = i + 1;
        } else {
            let mut j: usize = i;
            while j < n && !space(chars[j])
                invariant
                    chars@ == s@,
                    n == s@.len(),
                    i <= j <= n,
                    rest == s@.skip(i as int),
                    word_len(rest) == j - i + word_len(s@.skip(j as int)),
                decreases n - j,
            {
                assert(s@.skip(j as int).drop_first() == s@.skip(j + 1));
                j = j + 1;
            }
            let word: &'a str = s.substring_char(i, j);
            let ghost before = r@;
            r.push(word);
            proof {
                assert(word@ == rest.take(j - i));
                assert(rest.skip(j - i) == s@.skip(j as int));
                assert(views(r@) == views(before).push(word@));
                assert(views(before).push(word@) + words(s@.skip(j as int)) == views(before) + (seq![word@]
                    + words(s@.skip(j as int))));
            }
            i = j;
        }
    }
    assert(words(s@.skip(n as int)) == Seq::<Seq<char>>::empty());
    r
}

/// The position of the first `c` from `from` on, or the length where there is none.
fn find_from(chars: &Vec<char>, c: char, from: usize) -> (r: usize)
    requires
        from <= chars@.len(),
    ensures
        from <= r <= chars@.len(),
        find(chars@.skip(from as int), c) == r - from,
{
    let mut j: usize = from;
    while j < chars.len() && chars[j] != c
        invariant
            from <= j <= chars@.len(),
            find(chars@.skip(from as int), c) == j - from + find(chars@.skip(j as int), c),
        decreases chars@.len() - j,
    {
        assert(chars@.skip(j as int).drop_first() == chars@.skip(j + 1));
        j = j + 1;
    }
    j
}

/// The pieces of `s` between the occurrences of `c`.
pub fn split<'a>(s: &'a str, c: char) -> (r: Vec<&'a str>)
    ensures
        views(r@) == split_on(s@, c),
        r@.len() > 0,
{
    let chars: Vec<char> = chars_of(s);
    let n: usize = chars.len();
    let mut r: Vec<&'a str> = Vec::new();
    let mut i: usize = 0;
    assert(s@.skip(0) == s@);
    assert(views(r@) + split_on(s@, c) == split_on(s@, c));
    loop
        invariant
            chars@ == s@,
            n == s@.len(),
            i <= n,
            views(r@) + split_on(s@.skip(i as int), c) == split_on(s@, c),
        decreases n - i,
    {
        let j: usize = find_from(&chars, c, i);
        let ghost rest = s@.skip(i as int);
        let piece: &'a str = s.substring_char(i, j);
        let ghost before = r@;
        r.push(piece);
        proof {
            assert(piece@ == rest.take(j - i));
            assert(views(r@) == views(before).push(piece@));
        }
        if j >= n {
            proof {
                assert(rest.take(j - i) == rest);
                assert(views(before).push(piece@) == views(before) + seq![piece@]);
            }
            return r;
        }
        proof {
            assert(rest.skip(j - i + 1) == s@.skip(j + 1));
            assert(views(before).push(piece@) + split_on(s@.skip(j + 1), c) == views(before) + (seq![
                piece@,
            ] + split_on(s@.skip(j + 1), c)));
        }
        i = j + 1;
    }
}

/// The lines of `s`.
pub fn split_lines<'a>(s: &'a str) -> (r: Vec<&'a str>)
    ensures
        views(r@) == lines(s@),
{
    let chars: Vec<char> = chars_of(s);
    let n: usize = chars.len();
    let mut r: Vec<&'a str> = Vec::new();
    let mut i: usize = 0;
    assert(s@.skip(0) == s@);
    assert(views(r@) + lines(s@) == lines(s@));
    while i < n
        invariant
            chars@ == s@,
            n == s@.len(),
            i <= n,
            views(r@) + lines(s@.skip(i as int)) == lines(s@),
        decreases n - i,
    {
        let j: usize = find_from(&chars, '\n', i);
        let ghost rest = s@.skip(i as int);
        let ghost before = r@;
        if j >= n {
            let line: &'a str = s.substring_char(i, j);
            r.push(line);
            proof {
                assert(line@ == rest);
                assert(views(r@) == views(before) + seq![line@]);
            }
            return r;
        }
        let end: usize = if j > i && chars[j - 1] == '\r' {
            j - 1
        } else {
            j
        };
        let line: &'a str = s.substring_char(i, end);
        r.push(line);
        proof {
            assert(line@ == without_cr(rest.take(j - i)));
            assert(views(r@) == views(before).push(line@));
            assert(rest.skip(j - i + 1) == s@.skip(j + 1));
            assert(views(before).push(line@) + lines(s@.skip(j + 1)) == views(before) + (seq![line@]
                + lines(s@.skip(j + 1))));
        }
        i = j + 1;
    }
    assert(lines(s@.skip(n as int)) == Seq::<Seq<char>>::empty());
    r
}

/// `s` with every occurrence of `p` replaced by `by`.
pub fn replace(s: &str, p: &str, by: &str) -> (r: String)
    requires
        p@.len() > 0,
    ensures
        r@ == replaced(s@, p@, by@),
{
    let n: usize = s.unicode_len();
    let m: usize = p.unicode_len();
    let mut r: String = String::new();
    let mut i: usize = 0;
    assert(s@.skip(0) == s@);
    assert(r@ + replaced(s@, p@, by@) == replaced(s@, p@, by@));
    while i < n && m <= n - i
        invariant
            n == s@.len(),
            m == p@.len(),
            m > 0,
            i <= n,
            r@ + replaced(s@.skip(i as int), p@, by@) == replaced(s@, p@, by@),
        decreases n - i,
    {
        let ghost rest = s@.skip(i as int);
        let ghost before = r@;
        assert(s@.subrange(i as int, i + m) == rest.take(m as int));
        if same(s.substring_char(i, i + m), p) {
            r.append(by);
            assert(rest.skip(m as int) == s@.skip(i + m));
            assert(before + by@ + replaced(s@.skip(i + m), p@, by@) == before + (by@ + replaced(
                s@.skip(i + m),
                p@,
                by@,
            )));
            i = i + m;
        } else {
            r.append(s.substring_char(i, i + 1));
            assert(s@.subrange(i as int, i + 1) == seq![rest[0]]);
            assert(rest.drop_first() == s@.skip(i + 1));
            assert(before + seq![rest[0]] + replaced(s@.skip(i + 1), p@, by@) == before + (seq![rest[0]]
                + replaced(s@.skip(i + 1), p@, by@)));
            i = i + 1;
        }
    }
    r.append(s.substring_char(i, n));
    assert(s@.subrange(i as int, n as int) == s@.skip(i as int));
    r
}

/// The digit of a number below ten.
fn digit_str(d: u64) -> (r: &'static str)
    requires
        d < 10,
    ensures
        r@ == seq![digit(d as nat)],
{
    proof {
        reveal_strlit("0");
        reveal_strlit("1");
        reveal_strlit("2");
        reveal_strlit("3");
        reveal_strlit("4");
        reveal_strlit("5");
        reveal_strlit("6");
        reveal_strlit("7");
        reveal_strlit("8");
        reveal_strlit("9");
    }
    match d {
        0 => "0",
        1 => "1",
        2 => "2",
        3 => "3",
        4 => "4",
        5 => "5",
        6 => "6",
        7 => "7",
        8 => "8",
        _ => "9",
    }
}

/// `n` in decimal.
pub fn decimal_string(n: u64) -> (r: String)
    ensures
        r@ == decimal(n as nat),
    decreases n,
{
    if n < 10 {
        digit_str(n).to_owned()
    } else {
        let mut r: String = decimal_string(n / 10);
        r.append(digit_str(n % 10));
        r
    }
}

/// Longer digit sequences stand for numbers at least as large.
proof fn lemma_digits_grow(s: Seq<char>, k: int)
    requires
        0 <= k <= s.len(),
    ensures
        digits_value(s.take(k)) <= digits_value(s),
    decreases s.len(),
{
    if k == s.len() {
        assert(s.take(k) == s);
    } else {
        assert(s.drop_last().take(k) == s.take(k));
        lemma_digits_grow(s.drop_last(), k);
    }
}

/// The number at most `max` that `s` reads as.
fn parse_up_to(s: &str, max: u64) -> (r: Option<u64>)
    ensures
        r is Some <==> parsed(s@, max as nat) is Some,
        r matches Some(n) ==> parsed(s@, max as nat) == Some(n as nat),
{
    let chars: Vec<char> = chars_of(s);
    let n: usize = chars.len();
    let start: usize = if n > 0 && chars[0] == '+' {
        1
    } else {
        0
    };
    let ghost d = without_plus(s@);
    assert(d == s@.skip(start as int));
    if start >= n {
        return None;
    }
    let mut i: usize = start;
    let mut value: u64 = 0;
    while i < n
        invariant
            chars@ == s@,
            n == s@.len(),
            start <= i <= n,
            d == s@.skip(start as int),
            d == without_plus(s@),
            d.len() > 0,
            value <= max,
            value == digits_value(d.take(i - start)),
            forall|j: int| 0 <= j < i - start ==> is_digit(#[trigger] d[j]),
        decreases n - i,
    {
        let c: char = chars[i];
        assert(c == d[i - start]);
        if c < '0' || c > '9' {
            assert(!is_digit(d[i - start]));
            return None;
        }
        let v: u64 = (c as u32 - 48) as u64;
        proof {
            assert(d.take(i - start + 1).drop_last() == d.take(i - start));
            assert(digits_value(d.take(i - start + 1)) == value * 10 + v);
            lemma_digits_grow(d, i - start + 1);
        }
        if value > max / 10 || (value == max / 10 && v > max % 10) {
            return None;
        }
        value = value * 10 + v;
        i = i + 1;
    }
    assert(d.take(n - start) == d);
    Some(value)
}

/// The 64-bit number that `s` reads as.
pub fn parse_u64(s: &str) -> (r: Option<u64>)
    ensures
        r is Some <==> parsed(s@, u64::MAX as nat) is Some,
        r matches Some(n) ==> parsed(s@, u64::MAX as nat) == Some(n as nat),
{
    parse_up_to(s, u64::MAX)
}

/// The 32-bit number that `s` reads as.
pub fn parse_u32(s: &str) -> (r: Option<u32>)
    ensures
        r is Some <==> parsed(s@, u32::MAX as nat) is Some,
        r matches Some(n) ==> parsed(s@, u32::MAX as nat) == Some(n as nat),
{
    match parse_up_to(s, u32::MAX as u64) {
        Some(n) => Some(n as u32),
        None => None,
    }
}

/// A text that does not hold `c` is one piece.
pub proof fn lemma_split_without(s: Seq<char>, c: char)
    requires
        !s.contains(c),
    ensures
        split_on(s, c) == seq![s],
{
    lemma_find_without(s, c);
}

proof fn lemma_find_without(s: Seq<char>, c: char)
    requires
        !s.contains(c),
    ensures
        find(s, c) == s.len(),
    decreases s.len(),
{
    if s.len() > 0 {
        assert(s.contains(s[0]));
        assert forall|x: char| s.drop_first().contains(x) implies s.contains(x) by {
            let i = choose|i: int| 0 <= i < s.drop_first().len() && s.drop_first()[i] == x;
            assert(s[i + 1] == x);
        }
        lemma_find_without(s.drop_first(), c);
    }
}

/// A number written in decimal reads back as itself.
pub proof fn law_decimal_reads_back(n: nat, max: nat)
    requires
        n <= max,
    ensures
        parsed(decimal(n), max) == Some(n),
{
    lemma_decimal_digits(n);
}

proof fn lemma_decimal_digits(n: nat)
    ensures
        decimal(n).len() > 0,
        all_digits(decimal(n)),
        digits_value(decimal(n)) == n,
    decreases n,
{
    if n < 10 {
        assert(decimal(n).drop_last() == Seq::<char>::empty());
        assert(digits_value(decimal(n).drop_last()) == 0);
    } else {
        lemma_decimal_digits(n / 10);
        assert(decimal(n).drop_last() == decimal(n / 10));
    }
}

/// White space is the tabulator, the line and page ends, the blanks of all widths, and
/// the separators of lines and paragraphs.
pub proof fn law_white_space(c: char)
    ensures
        is_space(c) <==> ({
            let n = c as u32;
            ||| 9 <= n <= 13
            ||| n == 32
            ||| n == 0x85
            ||| n == 0xa0
            ||| n == 0x1680
            ||| 0x2000 <= n <= 0x200a
            ||| n == 0x2028
            ||| n == 0x2029
            ||| n == 0x202f
            ||| n == 0x205f
            ||| n == 0x3000
        }),
{
}

/// Whether a text is white space throughout.
pub open spec fn blank(s: Seq<char>) -> bool {
    forall|i: int| 0 <= i < s.len() ==> is_space(#[trigger] s[i])
}

proof fn lemma_trim_start(a: Seq<char>, s: Seq<char>)
    requires
        blank(a),
    ensures
        trim_start(a + s) == trim_start(s),
    decreases a.len(),
{
    if a.len() == 0 {
        assert(a + s == s);
    } else {
        assert(is_space(a[0]));
        assert((a + s).drop_first() == a.drop_first() + s);
        assert forall|i: int| 0 <= i < a.drop_first().len() implies is_space(
            #[trigger] a.drop_first()[i],
        ) by {
            assert(a.drop_first()[i] == a[i + 1]);
        }
        lemma_trim_start(a.drop_first(), s);
    }
}

proof fn lemma_trim_end(s: Seq<char>, b: Seq<char>)
    requires
        blank(b),
    ensures
        trim_end(s + b) == trim_end(s),
    decreases b.len(),
{
    if b.len() == 0 {
        assert(s + b == s);
    } else {
        assert(is_space(b[b.len() - 1]));
        assert((s + b).drop_last() == s + b.drop_last());
        assert forall|i: int| 0 <= i < b.drop_last().len() implies is_space(
            #[trigger] b.drop_last()[i],
        ) by {
            assert(b.drop_last()[i] == b[i]);
        }
        lemma_trim_end(s, b.drop_last());
    }
}

/// Trimming takes off the white space around a text, all of it, and nothing else.
pub proof fn law_trimming(a: Seq<char>, s: Seq<char>, b: Seq<char>)
    requires
        blank(a),
        blank(b),
        s.len() > 0 ==> !is_space(s[0]) && !is_space(s.last()),
    ensures
        trimmed(a + s + b) == s,
{
    assert(a + s + b == a + (s + b));
    lemma_trim_start(a, s + b);
    if s.len() > 0 {
        assert((s + b)[0] == s[0]);
        lemma_trim_end(s, b);
    } else {
        assert(b + s == b);
        lemma_trim_start(b, s);
        assert(s + b == b);
        assert(s == Seq::<char>::empty());
    }
}

proof fn lemma_word_before_space(a: Seq<char>, c: char, b: Seq<char>)
    requires
        is_space(c),
    ensures
        word_len(a.push(c) + b) == word_len(a),
        word_len(a) <= a.len(),
    decreases a.len(),
{
    let s = a.push(c) + b;
    if a.len() == 0 {
        assert(s[0] == c);
    } else {
        assert(s[0] == a[0]);
        assert(s.drop_first() == a.drop_first().push(c) + b);
        lemma_word_before_space(a.drop_first(), c, b);
    }
}

proof fn lemma_word_without_space(s: Seq<char>)
    requires
        forall|i: int| 0 <= i < s.len() ==> !is_space(#[trigger] s[i]),
    ensures
        word_len(s) == s.len(),
    decreases s.len(),
{
    if s.len() > 0 {
        assert(!is_space(s[0]));
        assert forall|i: int| 0 <= i < s.drop_first().len() implies !is_space(
            #[trigger] s.drop_first()[i],
        ) by {
            assert(s.drop_first()[i] == s[i + 1]);
        }
        lemma_word_without_space(s.drop_first());
    }
}

/// White space separates words, and only white space does.
pub proof fn law_words_are_separated(a: Seq<char>, c: char, b: Seq<char>)
    requires
        is_space(c),
    ensures
        words(a.push(c) + b) == words(a) + words(b),
    decreases a.len(),
{
    let s = a.push(c) + b;
    let none = Seq::<Seq<char>>::empty();
    if a.len() == 0 {
        assert(s[0] == c);
        assert(s.drop_first() == b);
        assert(words(a) == none);
        assert(none + words(b) == words(b));
    } else if is_space(a[0]) {
        assert(s[0] == a[0]);
        assert(s.drop_first() == a.drop_first().push(c) + b);
        law_words_are_separated(a.drop_first(), c, b);
    } else {
        assert(s[0] == a[0]);
        lemma_word_before_space(a, c, b);
        let k = word_len(a) as int;
        let rest = a.skip(k);
        assert(s.take(k) == a.take(k));
        assert(s.skip(k) == rest.push(c) + b);
        assert(k > 0);
        law_words_are_separated(rest, c, b);
        assert(seq![a.take(k)] + (words(rest) + words(b)) == (seq![a.take(k)] + words(rest)) + words(b));
    }
}

/// A text without white space is one word, and no text is no word.
pub proof fn law_one_word(s: Seq<char>)
    requires
        forall|i: int| 0 <= i < s.len() ==> !is_space(#[trigger] s[i]),
    ensures
        s.len() > 0 ==> words(s) == seq![s],
        s.len() == 0 ==> words(s).len() == 0,
{
    if s.len() > 0 {
        lemma_word_without_space(s);
        assert(!is_space(s[0]));
        assert(s.take(s.len() as int) == s);
        assert(words(s.skip(s.len() as int)) == Seq::<Seq<char>>::empty());
        assert(seq![s] + Seq::<Seq<char>>::empty() == seq![s]);
    }
}

proof fn lemma_find_first(a: Seq<char>, c: char, b: Seq<char>)
    requires
        !a.contains(c),
    ensures
        find(a.push(c) + b, c) == a.len(),
    decreases a.len(),
{
    let s = a.push(c) + b;
    if a.len() == 0 {
        assert(s[0] == c);
    } else {
        assert(s[0] == a[0]);
        assert(a.contains(a[0]));
        assert(s.drop_first() == a.drop_first().push(c) + b);
        assert forall|x: char| a.drop_first().contains(x) implies a.contains(x) by {
            let i = choose|i: int| 0 <= i < a.drop_first().len() && a.drop_first()[i] == x;
            assert(a[i + 1] == x);
        }
        lemma_find_first(a.drop_first(), c, b);
    }
}

/// A text is split at each separator, and nowhere else.
pub proof fn law_pieces_are_separated(a: Seq<char>, c: char, b: Seq<char>)
    requires
        !a.contains(c),
    ensures
        split_on(a, c) == seq![a],
        split_on(a.push(c) + b, c) == seq![a] + split_on(b, c),
{
    let s = a.push(c) + b;
    lemma_split_without(a, c);
    lemma_find_first(a, c, b);
    assert(s.take(a.len() as int) == a);
    assert(s.skip(a.len() as int + 1) == b);
}

/// A line ends with a line feed, with or without a carriage return before it; the last
/// one may do without.
pub proof fn law_lines_are_separated(a: Seq<char>, b: Seq<char>)
    requires
        !a.contains('\n'),
    ensures
        lines(Seq::<char>::empty()).len() == 0,
        a.len() > 0 ==> lines(a) == seq![a],
        a.len() == 0 || a.last() != '\r' ==> lines(a.push('\n') + b) == seq![a] + lines(b),
        lines(a.push('\r').push('\n') + b) == seq![a] + lines(b),
{
    let c = '\n';
    let s = a.push(c) + b;
    lemma_find_without(a, c);
    lemma_find_first(a, c, b);
    assert(s.take(a.len() as int) == a);
    assert(s.skip(a.len() as int + 1) == b);
    let r = a.push('\r');
    let t = r.push(c) + b;
    assert(!r.contains(c)) by {
        if r.contains(c) {
            let i = choose|i: int| 0 <= i < r.len() && r[i] == c;
            assert(i < a.len());
            assert(a[i] == c);
        }
    }
    lemma_find_first(r, c, b);
    assert(t.take(r.len() as int) == r);
    assert(t.skip(r.len() as int + 1) == b);
    assert(r.drop_last() == a);
}

/// A text begins with another, or holds it, exactly where it can be written around it.
pub proof fn law_parts_of_a_text(a: Seq<char>, p: Seq<char>, b: Seq<char>, s: Seq<char>)
    ensures
        begins(p + b, p),
        occurs(a + p + b, p),
        begins(s, p) ==> s == p + s.skip(p.len() as int),
        occurs(s, p) ==> exists|i: int|
            0 <= i <= s.len() - p.len() && s == #[trigger] s.take(i) + p + s.skip(i + p.len()),
{
    assert((p + b).take(p.len() as int) == p);
    let t = a + p + b;
    assert(t.subrange(a.len() as int, a.len() as int + p.len()) == p);
    assert(occurs_at(t, p, a.len() as int));
    if begins(s, p) {
        assert(s == s.take(p.len() as int) + s.skip(p.len() as int));
    }
    if occurs(s, p) {
        let i = choose|i: int| #[trigger] occurs_at(s, p, i);
        assert(s == s.take(i) + s.subrange(i, i + p.len()) + s.skip(i + p.len()));
    }
}

/// A text in which nothing is to be replaced stays as it is.
pub proof fn law_nothing_to_replace(a: Seq<char>, p: Seq<char>, by: Seq<char>)
    requires
        p.len() > 0,
        !occurs(a, p),
    ensures
        replaced(a, p, by) == a,
    decreases a.len(),
{
    let n = p.len() as int;
    if a.len() >= n {
        let rest = a.drop_first();
        assert(!occurs_at(a, p, 0));
        assert(a.subrange(0, n) == a.take(n));
        if occurs(rest, p) {
            let i = choose|i: int| #[trigger] occurs_at(rest, p, i);
            assert(a.subrange(i + 1, i + 1 + n) == rest.subrange(i, i + n));
            assert(occurs_at(a, p, i + 1));
        }
        law_nothing_to_replace(rest, p, by);
        assert(seq![a[0]] + rest == a);
    }
}

/// Replacing goes from the left: up to the first occurrence the text stays, that one is
/// replaced, and so on behind it.
pub proof fn law_replacing(a: Seq<char>, p: Seq<char>, by: Seq<char>, b: Seq<char>)
    requires
        p.len() > 0,
        forall|i: int| 0 <= i < a.len() ==> !#[trigger] occurs_at(a + p + b, p, i),
    ensures
        replaced(a + p + b, p, by) == a + by + replaced(b, p, by),
    decreases a.len(),
{
    let n = p.len() as int;
    let s = a + p + b;
    let tail = replaced(b, p, by);
    if a.len() == 0 {
        assert(s.take(n) == p);
        assert(s.skip(n) == b);
        assert(a + by + tail == by + tail);
    } else {
        let rest = a.drop_first();
        let t = rest + p + b;
        assert(!occurs_at(s, p, 0));
        assert(s.subrange(0, n) == s.take(n));
        assert(s.drop_first() == t);
        assert forall|i: int| 0 <= i < rest.len() implies !#[trigger] occurs_at(t, p, i) by {
            assert(!occurs_at(s, p, i + 1));
            assert(s.subrange(i + 1, i + 1 + n) == t.subrange(i, i + n));
        }
        law_replacing(rest, p, by, b);
        assert(replaced(s, p, by) == seq![s[0]] + (rest + by + tail));
        assert(seq![s[0]] + (rest + by + tail) == a + by + tail);
    }
}

proof fn lemma_kept_prefix(s: Seq<char>, p: Seq<char>, by: Seq<char>, m: int)
    requires
        p.len() > 0,
        by.len() > 0,
        0 <= m <= replaced(s, p, by).len(),
        forall|i: int| 0 <= i < m ==> !by.contains(#[trigger] replaced(s, p, by)[i]),
    ensures
        m <= s.len(),
        s.take(m) == replaced(s, p, by).take(m),
    decreases s.len(),
{
    let r = replaced(s, p, by);
    if s.len() < p.len() || m == 0 {
        assert(s.take(m) == r.take(m));
    } else if s.take(p.len() as int) == p {
        assert(r[0] == by[0]);
        assert(by.contains(by[0]));
    } else {
        let rest = s.drop_first();
        let t = replaced(rest, p, by);
        assert forall|i: int| 0 <= i < m - 1 implies !by.contains(#[trigger] t[i]) by {
            assert(r[i + 1] == t[i]);
        }
        lemma_kept_prefix(rest, p, by, m - 1);
        assert(s.take(m) == seq![s[0]] + rest.take(m - 1));
        assert(r.take(m) == seq![s[0]] + t.take(m - 1));
    }
}

/// What was replaced by something that shares no character with it is gone.
pub proof fn law_replaced_is_gone(s: Seq<char>, p: Seq<char>, by: Seq<char>)
    requires
        p.len() > 0,
        by.len() > 0,
        forall|i: int| 0 <= i < p.len() ==> !by.contains(#[trigger] p[i]),
    ensures
        !occurs(replaced(s, p, by), p),
    decreases s.len(),
{
    let r = replaced(s, p, by);
    let n = p.len() as int;
    if occurs(r, p) {
        let i = choose|i: int| #[trigger] occurs_at(r, p, i);
        let part = r.subrange(i, i + n);
        if s.len() < n {
        } else if s.take(n) == p {
            let rest = replaced(s.skip(n), p, by);
            law_replaced_is_gone(s.skip(n), p, by);
            if i < by.len() {
                assert(part[0] == by[i]);
                assert(by.contains(p[0]));
            } else {
                assert(rest.subrange(i - by.len(), i - by.len() + n) == part);
                assert(occurs_at(rest, p, i - by.len()));
            }
        } else {
            let rest = replaced(s.drop_first(), p, by);
            law_replaced_is_gone(s.drop_first(), p, by);
            if i > 0 {
                assert(rest.subrange(i - 1, i - 1 + n) == part);
                assert(occurs_at(rest, p, i - 1));
            } else {
                assert forall|k: int| 0 <= k < n - 1 implies !by.contains(#[trigger] rest[k]) by {
                    assert(part[k + 1] == rest[k]);
                    assert(!by.contains(p[k + 1]));
                }
                lemma_kept_prefix(s.drop_first(), p, by, n - 1);
                assert(s.take(n) == seq![s[0]] + s.drop_first().take(n - 1));
                assert(part == seq![r[0]] + rest.take(n - 1));
            }
        }
        assert(!occurs(r, p));
    }
}

/// A number in decimal is written digit by digit, the units last.
pub proof fn law_decimal_digits(n: nat, d: nat)
    requires
        d < 10,
    ensures
        decimal(d) == seq![(48 + d) as char],
        n > 0 ==> decimal(10 * n + d) == decimal(n).push((48 + d) as char),
        forall|i: int|
            0 <= i < decimal(n).len() ==> '0' <= #[trigger] decimal(n)[i] && decimal(n)[i] <= '9',
        decimal(n).len() > 0,
{
    lemma_decimal_digits(n);
    assert((10 * n + d) / 10 == n);
    assert((10 * n + d) % 10 == d);
    assert forall|i: int| 0 <= i < decimal(n).len() implies '0' <= #[trigger] decimal(n)[i] && decimal(
        n,
    )[i] <= '9' by {
        assert(is_digit(decimal(n)[i]));
    }
}

/// A text reads as a number exactly where it is made of digits, with at most a plus sign
/// in front. Each further digit counts for ten times what came before, plus itself, as
/// long as the number is not too large.
pub proof fn law_reading_numbers(s: Seq<char>, c: char, max: nat)
    ensures
        parsed(s, max) is Some ==> s.len() > 0 && (s[0] == '+' || '0' <= s[0] <= '9') && (s[0] == '+'
            ==> s.len() > 1) && forall|i: int| 1 <= i < s.len() ==> '0' <= #[trigger] s[i] && s[i]
            <= '9',
        '0' <= c <= '9' && c as nat - 48 <= max ==> parsed(seq![c], max) == Some(
            (c as nat - 48) as nat,
        ),
        '0' <= c <= '9' && parsed(s, max) is Some ==> ({
            let n = parsed(s, max)->0 * 10 + (c as nat - 48) as nat;
            parsed(s.push(c), max) == if n <= max {
                Some(n)
            } else {
                None
            }
        }),
        s.len() > 0 && s != seq!['+'] && parsed(s, max) is None ==> parsed(s.push(c), max) is None,
        s.len() > 0 && s[0] != '+' ==> parsed(seq!['+'] + s, max) == parsed(s, max),
{
    let d = without_plus(s);
    if parsed(s, max) is Some {
        assert forall|i: int| 1 <= i < s.len() implies '0' <= #[trigger] s[i] && s[i] <= '9' by {
            if s[0] == '+' {
                assert(is_digit(d[i - 1]));
            } else {
                assert(is_digit(d[i]));
            }
        }
        if s[0] != '+' {
            assert(is_digit(d[0]));
        }
    }
    if '0' <= c <= '9' {
        let one = seq![c];
        assert(without_plus(one) == one);
        assert(one.drop_last() == Seq::<char>::empty());
        assert(digits_value(one.drop_last()) == 0);
        assert(all_digits(one));
        if parsed(s, max) is Some {
            let more = d.push(c);
            assert(without_plus(s.push(c)) == more);
            assert(more.drop_last() == d);
            assert forall|i: int| 0 <= i < more.len() implies is_digit(#[trigger] more[i]) by {
                if i < d.len() {
                    assert(is_digit(d[i]));
                }
            }
        }
    }
    if s.len() > 0 && s != seq!['+'] && parsed(s, max) is None {
        let more = d.push(c);
        assert(without_plus(s.push(c)) == more);
        assert(more.drop_last() == d);
        if d.len() == 0 {
            assert(s == seq!['+']);
        }
        if all_digits(more) {
            assert forall|i: int| 0 <= i < d.len() implies is_digit(#[trigger] d[i]) by {
                assert(is_digit(more[i]));
            }
        }
    }
    if s.len() > 0 && s[0] != '+' {
        assert((seq!['+'] + s).drop_first() == s);
        assert(without_plus(seq!['+'] + s) == s);
    }
}

/// What some strings stand for are the characters of each, at its place.
pub proof fn law_strings_stand_for_their_characters(s: Seq<&str>, i: int)
    requires
        0 <= i < s.len(),
    ensures
        views(s).len() == s.len(),
        views(s)[i] == s[i]@,
{
}

} // verus!
