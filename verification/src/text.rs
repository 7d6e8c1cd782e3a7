//! Lines, words and numbers in text.
use vstd::arithmetic::div_mod::lemma_div_denominator;
use vstd::arithmetic::power::{lemma_pow1, lemma_pow_positive, pow};
use vstd::prelude::*;
use vstd::string::*;
use vstd::utf8::*;

verus! {

/// How many characters stand before the first `c`, or the length where there is none.
pub open spec fn first_of(s: Seq<char>, c: char) -> nat
    decreases s.len(),
{
    if s.len() == 0 || s[0] == c {
        0
    } else {
        1 + first_of(s.drop_first(), c)
    }
}

/// A line whose newline has been taken off, without the carriage return that may have stood
/// before it.
pub open spec fn without_cr(line: Seq<char>) -> Seq<char> {
    if line.len() > 0 && line.last() == '\r' {
        line.drop_last()
    } else {
        line
    }
}

/// The lines of a text. Each ends in a newline, which the last may lack; neither the newline
/// nor a carriage return before it belongs to the line.
pub open spec fn lines(s: Seq<char>) -> Seq<Seq<char>>
    decreases s.len(),
{
    let n = first_of(s, '\n') as int;
    if s.len() == 0 {
        Seq::empty()
    } else if n >= s.len() {
        seq![s]
    } else {
        seq![without_cr(s.take(n))] + lines(s.skip(n + 1))
    }
}

/// The characters that Unicode counts as white space.
pub open spec fn white_space(c: char) -> bool {
    let n = c as u32;
    ||| 0x9 <= n <= 0xd
    ||| n == 0x20
    ||| n == 0x85
    ||| n == 0xa0
    ||| n == 0x1680
    ||| 0x2000 <= n <= 0x200a
    ||| n == 0x2028
    ||| n == 0x2029
    ||| n == 0x202f
    ||| n == 0x205f
    ||| n == 0x3000
}

/// How many characters of white space, or of none, a text begins with.
pub open spec fn run_of(s: Seq<char>, blank: bool) -> nat
    decreases s.len(),
{
    if s.len() == 0 || white_space(s[0]) != blank {
        0
    } else {
        1 + run_of(s.drop_first(), blank)
    }
}

/// The words of a text: its longest stretches without white space.
pub open spec fn words(s: Seq<char>) -> Seq<Seq<char>>
    decreases s.len(),
{
    let t = s.skip(run_of(s, true) as int);
    let n = run_of(t, false) as int;
    if t.len() == 0 {
        Seq::empty()
    } else {
        proof {
            lemma_run_bounds(s, true);
            lemma_run_bounds(t, false);
        }
        seq![t.take(n)] + words(t.skip(n))
    }
}

/// The decimal digit for a number below ten.
pub open spec fn digit(n: nat) -> char {
    (48 + n) as char
}

/// A number in decimal.
pub open spec fn decimal(n: nat) -> Seq<char>
    decreases n,
{
    if n < 10 {
        seq![digit(n)]
    } else {
        decimal(n / 10).push(digit(n % 10))
    }
}

/// The stretches of `s` that `spans` marks by where each begins and where it ends.
pub open spec fn stretches(s: Seq<char>, spans: Seq<(usize, usize)>) -> Seq<Seq<char>> {
    spans.map_values(|span: (usize, usize)| s.subrange(span.0 as int, span.1 as int))
}

/// What `first_of` counts lies within the text, and it counts up to a first `c`.
pub proof fn lemma_first_of(s: Seq<char>, c: char, n: int)
    requires
        0 <= n <= s.len(),
        forall|i: int| 0 <= i < n ==> s[i] != c,
        n == s.len() || s[n] == c,
    ensures
        first_of(s, c) == n,
    decreases n,
{
    if n > 0 {
        lemma_first_of(s.drop_first(), c, n - 1);
    }
}

/// `run_of` counts up to the first character of the other sort.
proof fn lemma_run_of(s: Seq<char>, blank: bool, n: int)
    requires
        0 <= n <= s.len(),
        forall|i: int| 0 <= i < n ==> white_space(#[trigger] s[i]) == blank,
        n == s.len() || white_space(s[n]) != blank,
    ensures
        run_of(s, blank) == n,
    decreases n,
{
    if n > 0 {
        assert(white_space(s[0]) == blank);
        assert forall|i: int| 0 <= i < n - 1 implies white_space(
            #[trigger] s.drop_first()[i],
        ) == blank by {
            assert(s.drop_first()[i] == s[i + 1]);
        }
        lemma_run_of(s.drop_first(), blank, n - 1);
    }
}

/// `run_of` counts characters of the text, and what follows them is of the other sort.
pub proof fn lemma_run_bounds(s: Seq<char>, blank: bool)
    ensures
        run_of(s, blank) <= s.len(),
        run_of(s, blank) < s.len() ==> white_space(s[run_of(s, blank) as int]) != blank,
    decreases s.len(),
{
    if s.len() > 0 && white_space(s[0]) == blank {
        lemma_run_bounds(s.drop_first(), blank);
    }
}

/// A line that ends in a carriage return and a newline is the first line of its text, and the
/// lines of what follows come after it.
pub proof fn law_first_line(line: Seq<char>, rest: Seq<char>)
    requires
        !line.contains('\n'),
    ensures
        lines(line + "\r\n"@ + rest) == seq![line] + lines(rest),
{
    reveal_strlit("\r\n");
    let s = line + "\r\n"@ + rest;
    let n = line.len() as int + 1;
    assert forall|i: int| 0 <= i < n implies s[i] != '\n' by {
        if i < line.len() {
            assert(line.contains(line[i]));
        }
    }
    lemma_first_of(s, '\n', n);
    assert(s.take(n) =~= line.push('\r'));
    assert(line.push('\r').drop_last() =~= line);
    assert(s.skip(n + 1) =~= rest);
}

/// White space at the beginning of a text adds no word.
proof fn lemma_leading_blank(blank: char, rest: Seq<char>)
    requires
        white_space(blank),
    ensures
        words(seq![blank] + rest) == words(rest),
{
    let s = seq![blank] + rest;
    assert(s.drop_first() =~= rest);
    assert(s.skip(run_of(s, true) as int) =~= rest.skip(run_of(rest, true) as int)) by {
        lemma_run_bounds(rest, true);
    }
}

/// A word that white space follows is the first word of its text, and the words of what
/// follows come after it.
pub proof fn law_first_word(word: Seq<char>, blank: char, rest: Seq<char>)
    requires
        word.len() > 0,
        forall|i: int| 0 <= i < word.len() ==> !white_space(#[trigger] word[i]),
        white_space(blank),
    ensures
        words(word + seq![blank] + rest) == seq![word] + words(rest),
{
    let s = word + seq![blank] + rest;
    let n = word.len() as int;
    assert(s[0] == word[0]);
    assert(s.skip(0) =~= s);
    assert forall|i: int| 0 <= i < n implies !white_space(#[trigger] s[i]) by {
        assert(s[i] == word[i]);
    }
    assert(s[n] == blank);
    lemma_run_of(s, false, n);
    assert(s.take(n) =~= word);
    assert(s.skip(n) =~= seq![blank] + rest);
    lemma_leading_blank(blank, rest);
}

/// The characters of a string.
pub fn chars_of(s: &str) -> (out: Vec<char>)
    ensures
        out@ == s@,
{
    let mut out: Vec<char> = Vec::new();
    for c in it: s.chars()
        invariant
            it.seq() == s@,
            out@ == it.seq().take(it.index()),
    {
        out.push(c);
        assert(out@ =~= it.seq().take(it.index() + 1));
    }
    out
}

/// Calls `String::from_utf8`: bytes that are valid UTF-8 become the text that they encode,
/// and others none.
#[verifier::external_body]
pub(crate) fn utf8_text(bytes: Vec<u8>) -> (text: Option<String>)
    ensures
        text is Some <==> valid_utf8(bytes@),
        text is Some ==> text->0@ == decode_utf8(bytes@),
{
    String::from_utf8(bytes).ok()
}

/// Counts the characters of `s`, from `from` up to `to`, that stand before the first `c`.
pub fn find(s: &Vec<char>, from: usize, to: usize, c: char) -> (n: usize)
    requires
        from <= to <= s@.len(),
    ensures
        n == first_of(s@.subrange(from as int, to as int), c),
        n <= to - from,
        n < to - from ==> s@[from + n] == c,
{
    let ghost part = s@.subrange(from as int, to as int);
    let mut n: usize = 0;
    while n < to - from && s[from + n] != c
        invariant
            from <= to <= s@.len(),
            part == s@.subrange(from as int, to as int),
            n <= to - from,
            forall|i: int| 0 <= i < n ==> part[i] != c,
        decreases to - from - n,
    {
        n = n + 1;
    }
    proof {
        lemma_first_of(part, c, n as int);
    }
    n
}

/// Marks the lines of `s`.
pub fn line_spans(s: &Vec<char>) -> (spans: Vec<(usize, usize)>)
    ensures
        stretches(s@, spans@) == lines(s@),
        forall|i: int|
            0 <= i < spans@.len() ==> (#[trigger] spans@[i]).0 <= spans@[i].1 <= s@.len(),
{
    let mut spans: Vec<(usize, usize)> = Vec::new();
    let mut from: usize = 0;
    assert(s@.skip(0) =~= s@);
    assert(stretches(s@, spans@) =~= Seq::<Seq<char>>::empty());
    while from < s.len()
        invariant
            from <= s@.len(),
            stretches(s@, spans@) + lines(s@.skip(from as int)) == lines(s@),
            forall|i: int|
                0 <= i < spans@.len() ==> (#[trigger] spans@[i]).0 <= spans@[i].1 <= s@.len(),
        decreases s@.len() - from,
    {
        let ghost rest = s@.skip(from as int);
        let ghost before = spans@;
        let n: usize = find(s, from, s.len(), '\n');
        assert(s@.subrange(from as int, s@.len() as int) =~= rest);
        let end: usize = from + n;
        if end == s.len() {
            spans.push((from, end));
            from = end;
            assert(lines(rest) =~= seq![rest]);
        } else {
            let stop: usize = if n > 0 && s[end - 1] == '\r' {
                end - 1
            } else {
                end
            };
            spans.push((from, stop));
            from = end + 1;
            assert(rest.take(n as int) =~= s@.subrange(from - 1 - n, end as int));
            assert(without_cr(rest.take(n as int)) =~= s@.subrange(from - 1 - n, stop as int));
            assert(rest.skip(n + 1) =~= s@.skip(from as int));
        }
        assert(stretches(s@, spans@) =~= stretches(s@, before).push(
            s@.subrange(spans@.last().0 as int, spans@.last().1 as int),
        ));
        assert(stretches(s@, spans@) + lines(s@.skip(from as int)) =~= stretches(s@, before)
            + lines(rest));
    }
    assert(stretches(s@, spans@) =~= lines(s@));
    spans
}

/// Whether `s`, from `from` up to `to`, begins with `prefix`.
pub fn begins_with(s: &Vec<char>, from: usize, to: usize, prefix: &str) -> (b: bool)
    requires
        from <= to <= s@.len(),
    ensures
        b == prefix@.is_prefix_of(s@.subrange(from as int, to as int)),
{
    let p = chars_of(prefix);
    let ghost part = s@.subrange(from as int, to as int);
    if p.len() > to - from {
        return false;
    }
    let mut i: usize = 0;
    while i < p.len()
        invariant
            from <= to <= s@.len(),
            i <= p@.len() <= to - from,
            p@ == prefix@,
            part == s@.subrange(from as int, to as int),
            forall|j: int| 0 <= j < i ==> p@[j] == part[j],
        decreases p@.len() - i,
    {
        if p[i] != s[from + i] {
            assert(p@[i as int] != part.subrange(0, p@.len() as int)[i as int]);
            return false;
        }
        i = i + 1;
    }
    true
}

/// Whether `s` ends with `suffix`.
pub fn ends_with(s: &str, suffix: &str) -> (b: bool)
    ensures
        b == suffix@.is_suffix_of(s@),
{
    let cs = chars_of(s);
    let p = chars_of(suffix);
    if p.len() > cs.len() {
        return false;
    }
    let from: usize = cs.len() - p.len();
    let found = begins_with(&cs, from, cs.len(), suffix);
    assert(s@.subrange(from as int, s@.len() as int).subrange(0, p@.len() as int)
        =~= s@.subrange(from as int, s@.len() as int));
    found
}

/// Whether Unicode counts `c` as white space.
pub fn is_white_space(c: char) -> (b: bool)
    ensures
        b == white_space(c),
{
    let n: u32 = c as u32;
    (0x9 <= n && n <= 0xd) || n == 0x20 || n == 0x85 || n == 0xa0 || n == 0x1680 || (0x2000 <= n
        && n <= 0x200a) || n == 0x2028 || n == 0x2029 || n == 0x202f || n == 0x205f || n == 0x3000
}

/// Counts the characters of white space, or of none, that `s` has from `from` on.
fn count_run(s: &Vec<char>, from: usize, blank: bool) -> (n: usize)
    requires
        from <= s@.len(),
    ensures
        n == run_of(s@.skip(from as int), blank),
        n <= s@.len() - from,
        n < s@.len() - from ==> white_space(s@[from + n]) != blank,
{
    let ghost rest = s@.skip(from as int);
    let mut n: usize = 0;
    while n < s.len() - from && is_white_space(s[from + n]) == blank
        invariant
            from <= s@.len(),
            rest == s@.skip(from as int),
            n <= s@.len() - from,
            forall|i: int| 0 <= i < n ==> white_space(#[trigger] rest[i]) == blank,
        decreases s@.len() - from - n,
    {
        assert(rest[n as int] == s@[from + n]);
        n = n + 1;
    }
    proof {
        if n < rest.len() {
            assert(rest[n as int] == s@[from + n]);
        }
        lemma_run_of(rest, blank, n as int);
    }
    n
}

/// Marks the first word that `s` has from `from` on.
pub fn next_word(s: &Vec<char>, from: usize) -> (span: Option<(usize, usize)>)
    requires
        from <= s@.len(),
    ensures
        match span {
            None => words(s@.skip(from as int)) == Seq::<Seq<char>>::empty(),
            Some((a, b)) => a <= b <= s@.len() && words(s@.skip(from as int)) == seq![
                s@.subrange(a as int, b as int),
            ] + words(s@.skip(b as int)),
        },
{
    let ghost rest = s@.skip(from as int);
    let len: usize = s.len();
    let a: usize = from + count_run(s, from, true);
    assert(rest.skip(a - from) =~= s@.skip(a as int));
    if a == len {
        return None;
    }
    let n: usize = count_run(s, a, false);
    let ghost t = s@.skip(a as int);
    assert(t[0] == s@[a as int]);
    let b: usize = a + n;
    assert(t.take(n as int) =~= s@.subrange(a as int, b as int));
    assert(t.skip(n as int) =~= s@.skip(b as int));
    Some((a, b))
}

/// Marks the second word of `s`.
pub fn second_word(s: &Vec<char>) -> (span: Option<(usize, usize)>)
    ensures
        match span {
            None => words(s@).len() < 2,
            Some((a, b)) => a <= b <= s@.len() && words(s@).len() >= 2 && words(s@)[1]
                == s@.subrange(a as int, b as int),
        },
{
    assert(s@.skip(0) =~= s@);
    match next_word(s, 0) {
        None => None,
        Some(first) => next_word(s, first.1),
    }
}

/// The string for a number below ten.
fn digit_text(n: usize) -> (s: &'static str)
    requires
        n < 10,
    ensures
        s@ == seq![digit(n as nat)],
{
    proof {
        reveal_strlit("0");
        reveal_strlit("1");
        reveal_strlit("2");
        reveal_strlit("3");
        reveal_strlit("4");
        reveal_strlit("5");
        reveal_strlit("6");
        reveal_strlit("7");
        reveal_strlit("8");
        reveal_strlit("9");
    }
    let s: &'static str = match n {
        0 => "0",
        1 => "1",
        2 => "2",
        3 => "3",
        4 => "4",
        5 => "5",
        6 => "6",
        7 => "7",
        8 => "8",
        _ => "9",
    };
    assert(s@ =~= seq![digit(n as nat)]);
    s
}

/// Writes a number in decimal.
pub fn to_decimal(n: usize) -> (s: String)
    ensures
        s@ == decimal(n as nat),
    decreases n,
{
    if n < 10 {
        digit_text(n).to_owned()
    } else {
        let mut s = to_decimal(n / 10);
        s.append(digit_text(n % 10));
        assert(s@ =~= decimal(n as nat));
        s
    }
}

/// The characters that Unicode counts as white space, one by one.
pub proof fn law_white_space(c: char)
    ensures
        white_space(c) <==> seq![
            0x9u32,
            0xau32,
            0xbu32,
            0xcu32,
            0xdu32,
            0x20u32,
            0x85u32,
            0xa0u32,
            0x1680u32,
            0x2000u32,
            0x2001u32,
            0x2002u32,
            0x2003u32,
            0x2004u32,
            0x2005u32,
            0x2006u32,
            0x2007u32,
            0x2008u32,
            0x2009u32,
            0x200au32,
            0x2028u32,
            0x2029u32,
            0x202fu32,
            0x205fu32,
            0x3000u32,
        ].contains(c as u32),
{
    let n = c as u32;
    let all = seq![
        0x9u32,
        0xau32,
        0xbu32,
        0xcu32,
        0xdu32,
        0x20u32,
        0x85u32,
        0xa0u32,
        0x1680u32,
        0x2000u32,
        0x2001u32,
        0x2002u32,
        0x2003u32,
        0x2004u32,
        0x2005u32,
        0x2006u32,
        0x2007u32,
        0x2008u32,
        0x2009u32,
        0x200au32,
        0x2028u32,
        0x2029u32,
        0x202fu32,
        0x205fu32,
        0x3000u32,
    ];
    if white_space(c) {
        let i: int = if n <= 0xd {
            n - 0x9
        } else if n == 0x20 {
            5
        } else if n == 0x85 {
            6
        } else if n == 0xa0 {
            7
        } else if n == 0x1680 {
            8
        } else if n <= 0x200a {
            n - 0x2000 + 9
        } else if n <= 0x2029 {
            n - 0x2028 + 20
        } else if n == 0x202f {
            22
        } else if n == 0x205f {
            23
        } else {
            24
        };
        assert(all[i] == n);
    }
}

/// A line that ends in a bare newline is the first line of its text, and the lines of what follows
/// come after it.
pub proof fn law_first_line_bare(line: Seq<char>, rest: Seq<char>)
    requires
        !line.contains('\n'),
        line.len() > 0 ==> line[line.len() - 1] != '\r',
    ensures
        lines(line + seq!['\n'] + rest) == seq![line] + lines(rest),
{
    let s = line + seq!['\n'] + rest;
    let n = line.len() as int;
    assert forall|i: int| 0 <= i < n implies s[i] != '\n' by {
        assert(line.contains(line[i]));
    }
    lemma_first_of(s, '\n', n);
    assert(s.take(n) =~= line);
    assert(s.skip(n + 1) =~= rest);
}

/// A text without a newline is one line as it stands, and an empty one has none.
pub proof fn law_last_line(line: Seq<char>)
    requires
        !line.contains('\n'),
    ensures
        line.len() > 0 ==> lines(line) == seq![line],
        line.len() == 0 ==> lines(line) == Seq::<Seq<char>>::empty(),
{
    assert forall|i: int| 0 <= i < line.len() implies line[i] != '\n' by {
        assert(line.contains(line[i]));
    }
    lemma_first_of(line, '\n', line.len() as int);
}

/// White space at the beginning of a text adds no word to those of what follows.
pub proof fn law_blank_adds_no_word(blank: char, rest: Seq<char>)
    requires
        white_space(blank),
    ensures
        words(seq![blank] + rest) == words(rest),
        words(Seq::empty()) == Seq::<Seq<char>>::empty(),
{
    lemma_leading_blank(blank, rest);
}

/// A text without white space is one word.
pub proof fn law_last_word(word: Seq<char>)
    requires
        word.len() > 0,
        forall|i: int| 0 <= i < word.len() ==> !white_space(#[trigger] word[i]),
    ensures
        words(word) == seq![word],
{
    let n = word.len() as int;
    assert(!white_space(word[0]));
    assert(word.skip(0) =~= word);
    lemma_run_of(word, false, n);
    assert(word.take(n) =~= word);
    assert(word.skip(n) =~= Seq::<char>::empty());
    assert(words(word.skip(n)) =~= Seq::<Seq<char>>::empty());
}

/// The digit that stands `i` places before the last in decimal is what is left of the number, below
/// ten, once it has been divided by ten `i` times; and there are as many digits as the number needs.
pub proof fn law_decimal(n: nat, i: int)
    requires
        0 <= i < decimal(n).len(),
    ensures
        decimal(n)[decimal(n).len() - 1 - i] as int == 48 + n as int / pow(10, i as nat) % 10,
        decimal(n).len() > 1 ==> n as int >= pow(10, (decimal(n).len() - 1) as nat),
        (n as int) < pow(10, decimal(n).len()),
    decreases n,
{
    reveal(pow);
    if n < 10 {
        lemma_pow1(10);
        assert((48 + n) as char as int == 48 + n);
    } else {
        let tail = decimal(n / 10);
        let len = tail.len();
        let digits = decimal(n);
        lemma_decimal_len(n / 10);
        assert(digits.len() == len + 1);
        assert((48 + n % 10) as char as int == 48 + n % 10);
        if i > 0 {
            law_decimal(n / 10, i - 1);
            lemma_pow_positive(10, (i - 1) as nat);
            lemma_div_denominator(n as int, 10, pow(10, (i - 1) as nat));
            assert(digits[digits.len() - 1 - i] == tail[len - 1 - (i - 1)]);
        } else {
            law_decimal(n / 10, 0);
        }
        assert(pow(10, len + 1) == 10 * pow(10, len));
        if len > 1 {
            assert(pow(10, len) == 10 * pow(10, (len - 1) as nat));
        } else {
            lemma_pow1(10);
        }
    }
}

/// Every number has a digit.
proof fn lemma_decimal_len(n: nat)
    ensures
        decimal(n).len() > 0,
    decreases n,
{
    if n >= 10 {
        lemma_decimal_len(n / 10);
    }
}

/// A number has at least one digit, and each is one of ten.
pub proof fn law_decimal_digits(n: nat)
    ensures
        decimal(n).len() > 0,
        forall|i: int|
            0 <= i < decimal(n).len() ==> '0' as int <= (#[trigger] decimal(n)[i]) as int
                <= '9' as int,
{
    lemma_decimal_len(n);
    assert forall|i: int| 0 <= i < decimal(n).len() implies '0' as int <= (
    #[trigger] decimal(n)[i]) as int <= '9' as int by {
        law_decimal(n, decimal(n).len() - 1 - i);
    }
}

/// Each span marks the characters from where it begins up to where it ends.
pub proof fn law_stretches(s: Seq<char>, spans: Seq<(usize, usize)>, i: int)
    requires
        0 <= i < spans.len(),
    ensures
        stretches(s, spans).len() == spans.len(),
        stretches(s, spans)[i] == s.subrange(spans[i].0 as int, spans[i].1 as int),
{
}

} // verus!
