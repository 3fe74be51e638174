//! Text primitives: the characters of a string, decimal numbers, whitespace,
//! lines, fields and path components.

use vstd::prelude::*;
use vstd::string::*;

verus! {

/// Appends one character, as `String::push` does.
pub assume_specification[ String::push ](s: &mut String, c: char)
    ensures
        final(s)@ == old(s)@.push(c),
;

/// The characters of `s`, in order.
pub fn chars_of(s: &str) -> (chars: Vec<char>)
    ensures
        chars@ == s@,
{
    let mut chars: Vec<char> = Vec::new();
    for c in it: s.chars()
        invariant
            chars@ == it.seq().take(it.index() as int),
            it.seq() == s@,
    {
        chars.push(c);
    }
    assert(s@.take(s@.len() as int) =~= s@);
    chars
}

/// The string made of `chars[from..to]`.
pub fn string_of(chars: &Vec<char>, from: usize, to: usize) -> (s: String)
    requires
        from <= to <= chars@.len(),
    ensures
        s@ == chars@.subrange(from as int, to as int),
{
    let mut s = String::new();
    let mut i: usize = from;
    while i < to
        invariant
            from <= i <= to <= chars@.len(),
            s@ == chars@.subrange(from as int, i as int),
        decreases to - i,
    {
        s.push(chars[i]);
        i = i + 1;
        assert(s@ =~= chars@.subrange(from as int, i as int));
    }
    s
}

/// The texts of a list of strings.
pub open spec fn texts(list: Seq<String>) -> Seq<Seq<char>> {
    list.map_values(|s: String| s@)
}

/// Pushing a string pushes its text.
pub proof fn lemma_texts_push(list: Seq<String>, s: String)
    ensures
        texts(list.push(s)) == texts(list).push(s@),
{
    assert(texts(list.push(s)) =~= texts(list).push(s@));
}

/// Whether two texts are equal, character by character.
pub fn same_text(a: &str, b: &str) -> (same: bool)
    ensures
        same == (a@ == b@),
{
    let x = chars_of(a);
    let y = chars_of(b);
    if x.len() != y.len() {
        return false;
    }
    let mut i: usize = 0;
    while i < x.len()
        invariant
            x@ == a@,
            y@ == b@,
            x@.len() == y@.len(),
            i <= x@.len(),
            forall|j: int| 0 <= j < i ==> x@[j] == y@[j],
        decreases x@.len() - i,
    {
        if x[i] != y[i] {
            return false;
        }
        i = i + 1;
    }
    assert(x@ =~= y@);
    true
}

/// `a` followed by `b`.
pub fn joined(a: &str, b: &str) -> (s: String)
    ensures
        s@ == a@ + b@,
{
    let mut s = a.to_owned();
    s.append(b);
    s
}

// ---------------------------------------------------------------------------
// Decimal numbers
// ---------------------------------------------------------------------------

/// The decimal digit `d`.
pub open spec fn digit(d: nat) -> char {
    (48 + d) as char
}

/// The decimal notation of `n`, without leading zeros.
pub open spec fn decimal(n: nat) -> Seq<char>
    decreases n,
{
    if n < 10 {
        seq![digit(n)]
    } else {
        decimal(n / 10).push(digit(n % 10))
    }
}

/// The decimal notation of a signed number.
pub open spec fn signed_decimal(n: int) -> Seq<char> {
    if n < 0 {
        seq!['-'] + decimal((-n) as nat)
    } else {
        decimal(n as nat)
    }
}

/// The decimal notation of `n`.
pub fn decimal_text(n: u64) -> (s: String)
    ensures
        s@ == decimal(n as nat),
    decreases n,
{
    let d: u8 = (n % 10) as u8;
    let c: char = (48 + d) as char;
    if n < 10 {
        let mut s = String::new();
        s.push(c);
        assert(s@ =~= seq![digit(n as nat)]);
        s
    } else {
        let mut s = decimal_text(n / 10);
        s.push(c);
        s
    }
}

/// The decimal notation of a signed number.
pub fn signed_text(n: i32) -> (s: String)
    ensures
        s@ == signed_decimal(n as int),
{
    if n < 0 {
        let mut s = String::new();
        s.push('-');
        let magnitude: i64 = 0 - (n as i64);
        let rest = decimal_text(magnitude as u64);
        s.append(rest.as_str());
        assert(s@ =~= seq!['-'] + decimal((-n) as nat));
        s
    } else {
        decimal_text(n as u64)
    }
}

/// How an optional exit code is shown: `Some(1)` or `None`.
pub open spec fn code_words(code: Option<i32>) -> Seq<char> {
    match code {
        Some(n) => "Some("@ + signed_decimal(n as int) + ")"@,
        None => "None"@,
    }
}

/// Shows an optional exit code.
pub fn code_text(code: Option<i32>) -> (s: String)
    ensures
        s@ == code_words(code),
{
    match code {
        Some(n) => {
            let mut s = "Some(".to_owned();
            let number = signed_text(n);
            s.append(number.as_str());
            s.append(")");
            s
        },
        None => "None".to_owned(),
    }
}

/// Whether `c` is one of `0` to `9`.
pub open spec fn is_digit(c: char) -> bool {
    '0' <= c <= '9'
}

/// Whether every character of `s` is a decimal digit.
pub open spec fn all_digits(s: Seq<char>) -> bool {
    forall|i: int| 0 <= i < s.len() ==> is_digit(#[trigger] s[i])
}

/// The number that a text of decimal digits denotes.
pub open spec fn number(s: Seq<char>) -> nat
    decreases s.len(),
{
    if s.len() == 0 {
        0
    } else {
        10 * number(s.drop_last()) + (s.last() as nat - 48) as nat
    }
}

/// The number that a text denotes: an optional `+`, then at least one digit.
pub open spec fn unsigned(s: Seq<char>) -> Option<nat> {
    let body = if s.len() > 0 && s[0] == '+' {
        s.skip(1)
    } else {
        s
    };
    if body.len() > 0 && all_digits(body) {
        Some(number(body))
    } else {
        None
    }
}

/// The number that a text denotes, if it is at most `max`.
pub open spec fn unsigned_up_to(s: Seq<char>, max: nat) -> Option<nat> {
    match unsigned(s) {
        Some(n) => if n <= max {
            Some(n)
        } else {
            None
        },
        None => None,
    }
}

proof fn lemma_number_grows(s: Seq<char>, i: int)
    requires
        0 <= i <= s.len(),
    ensures
        number(s.take(i)) <= number(s),
    decreases s.len(),
{
    if i == s.len() {
        assert(s.take(i) =~= s);
    } else {
        lemma_number_grows(s.drop_last(), i);
        assert(s.drop_last().take(i) =~= s.take(i));
    }
}

fn parse_up_to(s: &str, max: u64) -> (n: Option<u64>)
    ensures
        match unsigned_up_to(s@, max as nat) {
            Some(v) => n == Some(v as u64),
            None => n is None,
        },
{
    let chars = chars_of(s);
    let mut from: usize = 0;
    if chars.len() > 0 && chars[0] == '+' {
        from = 1;
    }
    let ghost body = s@.skip(from as int);
    assert(from == 0 ==> body =~= s@);
    let ghost expected = if s@.len() > 0 && s@[0] == '+' {
        s@.skip(1)
    } else {
        s@
    };
    if from == chars.len() {
        return None;
    }
    let mut value: u64 = 0;
    let mut i: usize = from;
    assert(body.take(0) =~= Seq::<char>::empty());
    let mut fits = true;
    while i < chars.len()
        invariant
            chars@ == s@,
            from <= i <= chars@.len(),
            body == s@.skip(from as int),
            body == expected,
            unsigned(s@) is Some ==> all_digits(expected),
            all_digits(body.take(i - from)),
            fits ==> value == number(body.take(i - from)) && value <= max,
            !fits ==> number(body.take(i - from)) > max,
        decreases chars@.len() - i,
    {
        let c = chars[i];
        let ghost k = i - from;
        assert(body[k] == c);
        if c < '0' || c > '9' {
            assert(!is_digit(body[k]));
            return None;
        }
        let d: u64 = (c as u64) - 48;
        assert(body.take(k + 1).drop_last() =~= body.take(k));
        assert(body.take(k + 1) =~= body.take(k).push(c));
        if fits {
            if value > (max - d.min(max)) / 10 || d > max {
                fits = false;
                assert(number(body.take(k + 1)) > max);
            } else {
                value = value * 10 + d;
            }
        }
        i = i + 1;
    }
    assert(body.take(body.len() as int) =~= body);
    if fits {
        Some(value)
    } else {
        None
    }
}

/// Reads a `u64` in decimal.
pub fn parse_u64(s: &str) -> (n: Option<u64>)
    ensures
        match unsigned_up_to(s@, u64::MAX as nat) {
            Some(v) => n == Some(v as u64),
            None => n is None,
        },
{
    parse_up_to(s, u64::MAX)
}

/// Reads a `u32` in decimal.
pub fn parse_u32(s: &str) -> (n: Option<u32>)
    ensures
        match unsigned_up_to(s@, u32::MAX as nat) {
            Some(v) => n == Some(v as u32),
            None => n is None,
        },
{
    match parse_up_to(s, u32::MAX as u64) {
        Some(v) => Some(v as u32),
        None => None,
    }
}

/// Reading back the decimal notation of a number gives the number.
pub proof fn law_parse_inverts_decimal(n: nat)
    ensures
        unsigned(decimal(n)) == Some(n),
{
    lemma_decimal_digits(n);
    lemma_decimal_number(n);
    assert(is_digit(decimal(n)[0]));
}

proof fn lemma_decimal_digits(n: nat)
    ensures
        decimal(n).len() > 0,
        all_digits(decimal(n)),
    decreases n,
{
    if n >= 10 {
        lemma_decimal_digits(n / 10);
    }
}

proof fn lemma_decimal_number(n: nat)
    ensures
        number(decimal(n)) == n,
    decreases n,
{
    let s = decimal(n);
    if n < 10 {
        assert(s.drop_last() =~= Seq::<char>::empty());
        assert(s.last() == digit(n));
        assert(number(s.drop_last()) == 0);
    } else {
        lemma_decimal_number(n / 10);
        assert(s.drop_last() =~= decimal(n / 10));
        assert(s.last() == digit(n % 10));
    }
}

// ---------------------------------------------------------------------------
// Whitespace, fields and lines
// ---------------------------------------------------------------------------

/// Whether `c` has the Unicode property `White_Space`.
pub open spec fn is_space(c: char) -> bool {
    let p = c as u32;
    ||| 0x9 <= p <= 0xd
    ||| p == 0x20
    ||| p == 0x85
    ||| p == 0xa0
    ||| p == 0x1680
    ||| 0x2000 <= p <= 0x200a
    ||| p == 0x2028
    ||| p == 0x2029
    ||| p == 0x202f
    ||| p == 0x205f
    ||| p == 0x3000
}

/// Whether `c` is whitespace.
pub fn is_whitespace(c: char) -> (yes: bool)
    ensures
        yes == is_space(c),
{
    let p: u32 = c as u32;
    (0x9 <= p && p <= 0xd) || p == 0x20 || p == 0x85 || p == 0xa0 || p == 0x1680 || (0x2000 <= p
        && p <= 0x200a) || p == 0x2028 || p == 0x2029 || p == 0x202f || p == 0x205f || p == 0x3000
}

/// `s` without its leading whitespace.
pub open spec fn trim_start(s: Seq<char>) -> Seq<char>
    decreases s.len(),
{
    if s.len() > 0 && is_space(s[0]) {
        trim_start(s.skip(1))
    } else {
        s
    }
}

/// `s` without its trailing whitespace.
pub open spec fn trim_end(s: Seq<char>) -> Seq<char>
    decreases s.len(),
{
    if s.len() > 0 && is_space(s.last()) {
        trim_end(s.drop_last())
    } else {
        s
    }
}

/// `s` without leading and trailing whitespace.
pub open spec fn trimmed(s: Seq<char>) -> Seq<char> {
    trim_end(trim_start(s))
}

fn space_end(chars: &Vec<char>, from: usize) -> (to: usize)
    requires
        from <= chars@.len(),
    ensures
        from <= to <= chars@.len(),
        trim_start(chars@.skip(from as int)) == chars@.skip(to as int),
        to < chars@.len() ==> !is_space(chars@[to as int]),
{
    let mut i: usize = from;
    while i < chars.len() && is_whitespace(chars[i])
        invariant
            from <= i <= chars@.len(),
            trim_start(chars@.skip(from as int)) == trim_start(chars@.skip(i as int)),
        decreases chars@.len() - i,
    {
        assert(chars@.skip(i as int).skip(1) =~= chars@.skip(i + 1));
        i = i + 1;
    }
    i
}

/// `s` without leading and trailing whitespace.
pub fn trim(s: &str) -> (t: String)
    ensures
        t@ == trimmed(s@),
{
    let chars = chars_of(s);
    assert(chars@.skip(0) =~= s@);
    let from: usize = space_end(&chars, 0);
    let mut to: usize = chars.len();
    assert(chars@.subrange(from as int, to as int) =~= chars@.skip(from as int));
    while to > from && is_whitespace(chars[to - 1])
        invariant
            from <= to <= chars@.len(),
            trimmed(s@) == trim_end(chars@.subrange(from as int, to as int)),
        decreases to,
    {
        assert(chars@.subrange(from as int, to as int).drop_last() =~= chars@.subrange(
            from as int,
            to - 1,
        ));
        to = to - 1;
    }
    string_of(&chars, from, to)
}

/// The number of leading characters of `s` that are not whitespace.
pub open spec fn word_len(s: Seq<char>) -> nat
    decreases s.len(),
{
    if s.len() == 0 || is_space(s[0]) {
        0
    } else {
        1 + word_len(s.skip(1))
    }
}

/// The first word of a text is no longer than the text.
pub proof fn lemma_word_len(s: Seq<char>)
    ensures
        word_len(s) <= s.len(),
    decreases s.len(),
{
    if s.len() > 0 && !is_space(s[0]) {
        lemma_word_len(s.skip(1));
    }
}

/// Trimming the start never lengthens a text and leaves no leading whitespace.
pub proof fn lemma_trim_start_shortens(s: Seq<char>)
    ensures
        trim_start(s).len() <= s.len(),
        trim_start(s).len() > 0 ==> !is_space(trim_start(s)[0]),
    decreases s.len(),
{
    if s.len() > 0 && is_space(s[0]) {
        lemma_trim_start_shortens(s.skip(1));
    }
}

/// The maximal runs of non-whitespace characters in `s`, in order.
pub open spec fn fields(s: Seq<char>) -> Seq<Seq<char>>
    decreases s.len(),
{
    let t = trim_start(s);
    proof {
        lemma_trim_start_shortens(s);
        lemma_word_len(t);
    }
    if t.len() == 0 || word_len(t) == 0 {
        Seq::empty()
    } else {
        seq![t.take(word_len(t) as int)] + fields(t.skip(word_len(t) as int))
    }
}

/// The whitespace-separated fields of `s`.
pub fn fields_of(s: &str) -> (list: Vec<String>)
    ensures
        texts(list@) == fields(s@),
{
    let chars = chars_of(s);
    let mut list: Vec<String> = Vec::new();
    assert(texts(list@) =~= Seq::<Seq<char>>::empty());
    assert(chars@.skip(0) =~= s@);
    let mut i: usize = 0;
    assert(texts(list@) + fields(s@) =~= fields(s@));
    loop
        invariant
            chars@ == s@,
            i <= chars@.len(),
            texts(list@) + fields(chars@.skip(i as int)) == fields(s@),
        decreases chars@.len() - i,
    {
        let start: usize = space_end(&chars, i);
        let ghost rest = chars@.skip(start as int);
        if start == chars.len() {
            assert(rest.len() == 0);
            assert(texts(list@) =~= fields(s@));
            return list;
        }
        let mut end: usize = start;
        assert(rest =~= chars@.skip(end as int));
        while end < chars.len() && !is_whitespace(chars[end])
            invariant
                chars@ == s@,
                start <= end <= chars@.len(),
                rest == chars@.skip(start as int),
                word_len(rest) == (end - start) + word_len(chars@.skip(end as int)),
            decreases chars@.len() - end,
        {
            assert(chars@.skip(end as int).skip(1) =~= chars@.skip(end + 1));
            end = end + 1;
        }
        let word = string_of(&chars, start, end);
        proof {
            assert(word_len(rest) == end - start);
            assert(rest.take(end - start) =~= word@);
            assert(rest.skip(end - start) =~= chars@.skip(end as int));
            lemma_texts_push(list@, word);
            assert(texts(list@) + (seq![word@] + fields(chars@.skip(end as int))) =~= texts(
                list@,
            ).push(word@) + fields(chars@.skip(end as int)));
            assert(!is_space(rest[0]));
        }
        list.push(word);
        i = end;
    }
}

/// The position of the first `c` in `s`, or the length of `s`.
pub open spec fn find(s: Seq<char>, c: char) -> nat
    decreases s.len(),
{
    if s.len() == 0 || s[0] == c {
        0
    } else {
        1 + find(s.skip(1), c)
    }
}

/// A search ends within the text.
pub proof fn lemma_find(s: Seq<char>, c: char)
    ensures
        find(s, c) <= s.len(),
    decreases s.len(),
{
    if s.len() > 0 && s[0] != c {
        lemma_find(s.skip(1), c);
    }
}

/// The position of the first `c` in `chars` from `from` on, or their end.
pub fn find_from(chars: &Vec<char>, from: usize, c: char) -> (at: usize)
    requires
        from <= chars@.len(),
    ensures
        from <= at <= chars@.len(),
        at - from == find(chars@.skip(from as int), c),
{
    let mut i: usize = from;
    while i < chars.len() && chars[i] != c
        invariant
            from <= i <= chars@.len(),
            find(chars@.skip(from as int), c) == (i - from) + find(chars@.skip(i as int), c),
        decreases chars@.len() - i,
    {
        assert(chars@.skip(i as int).skip(1) =~= chars@.skip(i + 1));
        i = i + 1;
    }
    i
}

/// `line` without one trailing carriage return.
pub open spec fn chomped(line: Seq<char>) -> Seq<char> {
    if line.len() > 0 && line.last() == '\r' {
        line.drop_last()
    } else {
        line
    }
}

/// The lines of `s`: each ends in a line feed, or a carriage return and a line
/// feed, which is not part of it; the ending of the last line is optional.
pub open spec fn lines(s: Seq<char>) -> Seq<Seq<char>>
    decreases s.len(),
{
    let n = find(s, '\n');
    proof {
        lemma_find(s, '\n');
    }
    if s.len() == 0 {
        Seq::empty()
    } else if n >= s.len() {
        seq![s]
    } else {
        seq![chomped(s.take(n as int))] + lines(s.skip(n as int + 1))
    }
}

/// The lines of `s`.
pub fn lines_of(s: &str) -> (list: Vec<String>)
    ensures
        texts(list@) == lines(s@),
{
    let chars = chars_of(s);
    let mut list: Vec<String> = Vec::new();
    let mut i: usize = 0;
    assert(chars@.skip(0) =~= s@);
    assert(texts(list@) + lines(s@) =~= lines(s@));
    loop
        invariant
            chars@ == s@,
            i <= chars@.len(),
            texts(list@) + lines(chars@.skip(i as int)) == lines(s@),
        decreases chars@.len() - i,
    {
        let ghost rest = chars@.skip(i as int);
        if i == chars.len() {
            assert(texts(list@) =~= lines(s@));
            return list;
        }
        let end: usize = find_from(&chars, i, '\n');
        if end == chars.len() {
            let line = string_of(&chars, i, end);
            proof {
                assert(line@ =~= rest);
                lemma_texts_push(list@, line);
                assert(texts(list@).push(line@) =~= texts(list@) + seq![rest]);
            }
            list.push(line);
            return list;
        }
        let mut stop: usize = end;
        if end > i && chars[end - 1] == '\r' {
            stop = end - 1;
        }
        let line = string_of(&chars, i, stop);
        proof {
            assert(rest.take(end - i) =~= chars@.subrange(i as int, end as int));
            assert(line@ =~= chomped(rest.take(end - i)));
            assert(rest.skip(end - i + 1) =~= chars@.skip(end + 1));
            lemma_texts_push(list@, line);
            assert(texts(list@) + (seq![line@] + lines(chars@.skip(end + 1))) =~= texts(
                list@,
            ).push(line@) + lines(chars@.skip(end + 1)));
        }
        list.push(line);
        i = end + 1;
    }
}

/// Whether `needle` stands in `s` at position `at`.
pub open spec fn stands_at(s: Seq<char>, needle: Seq<char>, at: int) -> bool {
    0 <= at && at + needle.len() <= s.len() && s.subrange(at, at + needle.len()) == needle
}

/// Whether `needle` occurs in `s`.
pub open spec fn occurs(s: Seq<char>, needle: Seq<char>) -> bool {
    exists|at: int| stands_at(s, needle, at)
}

fn matches_at(s: &Vec<char>, needle: &Vec<char>, at: usize) -> (yes: bool)
    requires
        at + needle@.len() <= s@.len(),
    ensures
        yes == stands_at(s@, needle@, at as int),
{
    let mut i: usize = 0;
    let n: usize = s.len();
    while i < needle.len()
        invariant
            at + needle@.len() <= s@.len(),
            n == s@.len(),
            i <= needle@.len(),
            forall|j: int| 0 <= j < i ==> s@[at + j] == needle@[j],
        decreases needle@.len() - i,
    {
        if s[at + i] != needle[i] {
            assert(s@.subrange(at as int, at + needle@.len())[i as int] != needle@[i as int]);
            return false;
        }
        i = i + 1;
    }
    assert(s@.subrange(at as int, at + needle@.len()) =~= needle@);
    true
}

/// Whether `needle` occurs in `s`.
pub fn contains(s: &str, needle: &str) -> (yes: bool)
    ensures
        yes == occurs(s@, needle@),
{
    let x = chars_of(s);
    let y = chars_of(needle);
    if y.len() > x.len() {
        return false;
    }
    let last: usize = x.len() - y.len();
    let mut at: usize = 0;
    while at <= last
        invariant
            x@ == s@,
            y@ == needle@,
            last == x@.len() - y@.len(),
            at <= last + 1,
            forall|k: int| 0 <= k < at ==> !stands_at(s@, needle@, k),
        decreases last + 1 - at,
    {
        if matches_at(&x, &y, at) {
            return true;
        }
        if at == last {
            return false;
        }
        at = at + 1;
    }
    false
}

/// `s` with each `from` replaced by `to`.
pub open spec fn replaced(s: Seq<char>, from: char, to: char) -> Seq<char> {
    s.map_values(|c: char| if c == from { to } else { c })
}

/// `s` with each `from` replaced by `to`.
pub fn replace_char(s: &str, from: char, to: char) -> (r: String)
    ensures
        r@ == replaced(s@, from, to),
{
    let chars = chars_of(s);
    let mut r = String::new();
    let mut i: usize = 0;
    while i < chars.len()
        invariant
            chars@ == s@,
            i <= chars@.len(),
            r@ == replaced(s@.take(i as int), from, to),
        decreases chars@.len() - i,
    {
        let c = chars[i];
        if c == from {
            r.push(to);
        } else {
            r.push(c);
        }
        assert(r@ =~= replaced(s@.take(i + 1), from, to));
        i = i + 1;
    }
    assert(s@.take(s@.len() as int) =~= s@);
    r
}

// ---------------------------------------------------------------------------
// Paths
// ---------------------------------------------------------------------------

/// The path that `name` denotes in the directory `dir`: `name` itself where it
/// is absolute, else the two with one slash between them.
pub open spec fn path_joined(dir: Seq<char>, name: Seq<char>) -> Seq<char> {
    if name.len() > 0 && name[0] == '/' {
        name
    } else if dir.len() == 0 || dir.last() == '/' {
        dir + name
    } else {
        dir + seq!['/'] + name
    }
}

/// Joins a directory and a name.
pub fn path_join(dir: &str, name: &str) -> (path: String)
    ensures
        path@ == path_joined(dir@, name@),
{
    let d = chars_of(dir);
    let n = chars_of(name);
    if n.len() > 0 && n[0] == '/' {
        return name.to_owned();
    }
    let mut path = dir.to_owned();
    if d.len() > 0 && d[d.len() - 1] != '/' {
        path.push('/');
        assert(path@ =~= dir@ + seq!['/']);
    }
    path.append(name);
    path
}

/// The pieces of `s` between slashes.
pub open spec fn pieces(s: Seq<char>) -> Seq<Seq<char>>
    decreases s.len(),
{
    let n = find(s, '/');
    proof {
        lemma_find(s, '/');
    }
    if n >= s.len() {
        seq![s]
    } else {
        seq![s.take(n as int)] + pieces(s.skip(n as int + 1))
    }
}

/// Whether the piece at `index` of a path counts as a component: an empty piece
/// never does, and a single dot only at the start of a relative path.
pub open spec fn is_component(piece: Seq<char>, index: int) -> bool {
    piece.len() > 0 && (piece == seq!['.'] ==> index == 0)
}

/// The first `n` pieces that count.
pub open spec fn kept(list: Seq<Seq<char>>, n: nat) -> Seq<Seq<char>>
    decreases n,
{
    if n == 0 {
        Seq::empty()
    } else {
        let i = (n - 1) as nat;
        if is_component(list[i as int], i as int) {
            kept(list, i).push(list[i as int])
        } else {
            kept(list, i)
        }
    }
}

/// The components of a path; the root directory is the component `/`.
pub open spec fn components(path: Seq<char>) -> Seq<Seq<char>> {
    let root = if path.len() > 0 && path[0] == '/' {
        seq![seq!['/']]
    } else {
        Seq::empty()
    };
    root + kept(pieces(path), pieces(path).len())
}

/// Whether `path` is `base` or lies below it: the components of `base` are the
/// first components of `path`.
pub open spec fn lies_under(path: Seq<char>, base: Seq<char>) -> bool {
    components(base).is_prefix_of(components(path))
}

fn pieces_of(s: &str) -> (list: Vec<String>)
    ensures
        texts(list@) == pieces(s@),
{
    let chars = chars_of(s);
    let mut list: Vec<String> = Vec::new();
    let mut i: usize = 0;
    assert(chars@.skip(0) =~= s@);
    assert(texts(list@) + pieces(s@) =~= pieces(s@));
    loop
        invariant
            chars@ == s@,
            i <= chars@.len(),
            texts(list@) + pieces(chars@.skip(i as int)) == pieces(s@),
        decreases chars@.len() - i,
    {
        let ghost rest = chars@.skip(i as int);
        let end: usize = find_from(&chars, i, '/');
        let piece = string_of(&chars, i, end);
        proof {
            lemma_texts_push(list@, piece);
        }
        if end == chars.len() {
            proof {
                assert(piece@ =~= rest);
                assert(texts(list@).push(piece@) =~= texts(list@) + seq![rest]);
            }
            list.push(piece);
            return list;
        }
        proof {
            assert(rest.take(end - i) =~= piece@);
            assert(rest.skip(end - i + 1) =~= chars@.skip(end + 1));
            assert(texts(list@) + (seq![piece@] + pieces(chars@.skip(end + 1))) =~= texts(
                list@,
            ).push(piece@) + pieces(chars@.skip(end + 1)));
        }
        list.push(piece);
        i = end + 1;
    }
}

/// The components of a path.
pub fn components_of(path: &str) -> (list: Vec<String>)
    ensures
        texts(list@) == components(path@),
{
    let all = pieces_of(path);
    let chars = chars_of(path);
    let mut list: Vec<String> = Vec::new();
    if chars.len() > 0 && chars[0] == '/' {
        let mut root = String::new();
        root.push('/');
        assert(root@ =~= seq!['/']);
        list.push(root);
        assert(texts(list@) =~= seq![seq!['/']]);
    } else {
        assert(texts(list@) =~= Seq::<Seq<char>>::empty());
    }
    let ghost root = texts(list@);
    let ghost every = pieces(path@);
    assert(root + kept(every, 0) =~= root);
    let mut i: usize = 0;
    while i < all.len()
        invariant
            texts(all@) == every,
            i <= all@.len(),
            texts(list@) == root + kept(every, i as nat),
        decreases all@.len() - i,
    {
        let piece = chars_of(all[i].as_str());
        assert(piece@ == every[i as int]);
        let single_dot = piece.len() == 1 && piece[0] == '.';
        assert(single_dot == (piece@ =~= seq!['.']));
        if piece.len() > 0 && (!single_dot || i == 0) {
            let copy = all[i].clone();
            proof {
                lemma_texts_push(list@, copy);
                assert(root + kept(every, i as nat).push(copy@) =~= (root + kept(
                    every,
                    i as nat,
                )).push(copy@));
            }
            list.push(copy);
        }
        i = i + 1;
    }
    assert(texts(all@).len() == all@.len());
    list
}

/// Whether `path` is `base` or lies below it.
pub fn is_under(path: &str, base: &str) -> (yes: bool)
    ensures
        yes == lies_under(path@, base@),
{
    let p = components_of(path);
    let b = components_of(base);
    let ghost ps = components(path@);
    let ghost bs = components(base@);
    assert(ps.len() == p@.len() && bs.len() == b@.len());
    if b.len() > p.len() {
        return false;
    }
    let mut i: usize = 0;
    while i < b.len()
        invariant
            texts(p@) == ps,
            texts(b@) == bs,
            ps == components(path@),
            bs == components(base@),
            b@.len() <= p@.len(),
            i <= b@.len(),
            forall|j: int| 0 <= j < i ==> ps[j] == bs[j],
        decreases b@.len() - i,
    {
        assert(ps[i as int] == p@[i as int]@ && bs[i as int] == b@[i as int]@);
        if !same_text(p[i].as_str(), b[i].as_str()) {
            assert(ps.take(bs.len() as int)[i as int] != bs[i as int]);
            return false;
        }
        i = i + 1;
    }
    assert(ps.take(bs.len() as int) =~= bs);
    true
}

/// The decimal notation is made of digits, has no leading zero but for zero itself, and each
/// digit more counts ten times as much.
pub proof fn law_decimal_is_digits(n: nat)
    ensures
        decimal(n).len() > 0,
        all_digits(decimal(n)),
        forall|i: int| 0 <= i < decimal(n).len() ==> '0' <= #[trigger] decimal(n)[i] <= '9',
        n > 0 ==> decimal(n)[0] != '0',
        n < 10 ==> decimal(n).len() == 1 && decimal(n)[0] as nat == 48 + n,
        n >= 10 ==> decimal(n) == decimal(n / 10) + seq![(48 + n % 10) as char],
    decreases n,
{
    lemma_decimal_digits(n);
    assert forall|i: int| 0 <= i < decimal(n).len() implies '0' <= #[trigger] decimal(n)[i]
        <= '9' by {
        assert(is_digit(decimal(n)[i]));
    }
    if n >= 10 {
        law_decimal_is_digits(n / 10);
        assert(decimal(n) =~= decimal(n / 10) + seq![digit(n % 10)]);
    }
}

/// A number is read exactly where it is at most the bound, as what it is.
pub proof fn law_bounded_numbers_are_read(n: nat, max: nat)
    ensures
        n <= max ==> unsigned_up_to(decimal(n), max) == Some(n),
        n > max ==> unsigned_up_to(decimal(n), max) is None,
{
    law_parse_inverts_decimal(n);
}

/// A sign in front changes nothing, and each digit more makes ten times as much and the digit.
pub proof fn law_digits_are_read_one_by_one(digits: Seq<char>, last: char)
    requires
        all_digits(digits),
        '0' <= last <= '9',
    ensures
        digits.len() > 0 ==> unsigned(seq!['+'] + digits) == unsigned(digits),
        digits.len() > 0 ==> unsigned(digits + seq![last]) == Some(
            (10 * unsigned(digits)->0 + (last as nat - 48)) as nat,
        ),
        unsigned(seq![last]) == Some((last as nat - 48) as nat),
{
    if digits.len() > 0 {
        assert((seq!['+'] + digits).skip(1) =~= digits);
        assert(is_digit(digits[0]));
        let more = digits + seq![last];
        assert(more[0] == digits[0]);
        assert(more.drop_last() =~= digits);
        assert forall|i: int| 0 <= i < more.len() implies is_digit(#[trigger] more[i]) by {
            if i < digits.len() {
                assert(is_digit(digits[i]));
            }
        }
    }
    let one = seq![last];
    assert(one.drop_last() =~= Seq::<char>::empty());
    assert(number(one.drop_last()) == 0);
    assert(all_digits(one));
}

/// A text that is read as a number is made of digits, after at most one sign.
pub proof fn law_only_digits_are_read(s: Seq<char>)
    ensures
        unsigned(s) is Some ==> s.len() > 0 && forall|i: int|
            0 <= i < s.len() ==> '0' <= #[trigger] s[i] <= '9' || (i == 0 && s[0] == '+' && s.len()
                > 1),
{
    if unsigned(s) is Some {
        assert forall|i: int| 0 <= i < s.len() implies '0' <= #[trigger] s[i] <= '9' || (i == 0
            && s[0] == '+' && s.len() > 1) by {
            if s[0] == '+' {
                if i > 0 {
                    assert(is_digit(s.skip(1)[i - 1]));
                }
            } else {
                assert(is_digit(s[i]));
            }
        }
    }
}

/// Trimming takes whitespace from both ends and nothing else: what is left is a stretch of
/// the text that neither begins nor ends with whitespace, and all around it is whitespace.
pub proof fn law_trimming_takes_whitespace_only(s: Seq<char>)
    ensures
        exists|from: int, to: int|
            #![trigger s.subrange(from, to)]
            0 <= from <= to <= s.len() && trimmed(s) == s.subrange(from, to) && (forall|i: int|
                0 <= i < from || to <= i < s.len() ==> is_space(#[trigger] s[i])),
        trimmed(s).len() > 0 ==> !is_space(trimmed(s)[0]) && !is_space(trimmed(s).last()),
{
    let from = lemma_trim_start_cut(s);
    let t = trim_start(s);
    let len = lemma_trim_end_cut(t);
    let to = from + len;
    assert(trimmed(s) =~= s.subrange(from, to));
    assert forall|i: int| 0 <= i < from || to <= i < s.len() implies is_space(#[trigger] s[i]) by {
        if to <= i {
            assert(t[i - from] == s[i]);
        }
    }
    if trimmed(s).len() > 0 {
        assert(trimmed(s)[0] == t[0]);
        lemma_trim_start_shortens(s);
    }
}

proof fn lemma_trim_start_cut(s: Seq<char>) -> (from: int)
    ensures
        0 <= from <= s.len(),
        trim_start(s) == s.skip(from),
        forall|i: int| 0 <= i < from ==> is_space(#[trigger] s[i]),
    decreases s.len(),
{
    if s.len() > 0 && is_space(s[0]) {
        let rest = s.skip(1);
        let from = lemma_trim_start_cut(rest);
        assert(rest.skip(from) =~= s.skip(from + 1));
        assert forall|i: int| 0 <= i < from + 1 implies is_space(#[trigger] s[i]) by {
            if i > 0 {
                assert(rest[i - 1] == s[i]);
            }
        }
        from + 1
    } else {
        assert(s.skip(0) =~= s);
        0
    }
}

proof fn lemma_trim_end_cut(s: Seq<char>) -> (len: int)
    ensures
        0 <= len <= s.len(),
        trim_end(s) == s.take(len),
        forall|i: int| len <= i < s.len() ==> is_space(#[trigger] s[i]),
        len > 0 ==> !is_space(s[len - 1]),
    decreases s.len(),
{
    if s.len() > 0 && is_space(s.last()) {
        let rest = s.drop_last();
        let len = lemma_trim_end_cut(rest);
        assert(rest.take(len) =~= s.take(len));
        assert forall|i: int| len <= i < s.len() implies is_space(#[trigger] s[i]) by {
            if i < rest.len() {
                assert(rest[i] == s[i]);
            }
        }
        len
    } else {
        assert(s.take(s.len() as int) =~= s);
        s.len() as int
    }
}

/// Whether a text is a word: not empty and without whitespace.
pub open spec fn is_word(s: Seq<char>) -> bool {
    s.len() > 0 && forall|i: int| 0 <= i < s.len() ==> !is_space(#[trigger] s[i])
}

proof fn lemma_word_len_of(word: Seq<char>, rest: Seq<char>)
    requires
        forall|i: int| 0 <= i < word.len() ==> !is_space(#[trigger] word[i]),
        rest.len() == 0 || is_space(rest[0]),
    ensures
        word_len(word + rest) == word.len(),
    decreases word.len(),
{
    let s = word + rest;
    if word.len() == 0 {
        assert(s =~= rest);
    } else {
        assert(s[0] == word[0]);
        assert(s.skip(1) =~= word.skip(1) + rest);
        assert forall|i: int| 0 <= i < word.skip(1).len() implies !is_space(
            #[trigger] word.skip(1)[i],
        ) by {
            assert(!is_space(word[i + 1]));
        }
        lemma_word_len_of(word.skip(1), rest);
    }
}

/// The fields of a text are its words: a word in front is the first of them, whitespace in
/// front is passed over, and a text without a word has none.
pub proof fn law_fields_are_the_words(word: Seq<char>, space: char, rest: Seq<char>)
    requires
        is_word(word),
        is_space(space),
    ensures
        fields(Seq::empty()) == Seq::<Seq<char>>::empty(),
        fields(word) == seq![word],
        fields(seq![space] + rest) == fields(rest),
        fields(word + seq![space] + rest) == seq![word] + fields(rest),
{
    let gap = seq![space] + rest;
    assert(gap[0] == space);
    assert(gap.skip(1) =~= rest);
    assert(trim_start(gap) == trim_start(rest));
    lemma_trim_start_shortens(rest);
    assert(fields(gap) == fields(rest));
    let none = Seq::<char>::empty();
    assert(trim_start(none) =~= none);
    assert(fields(none) =~= Seq::<Seq<char>>::empty());
    lemma_word_len_of(word, none);
    assert(word + none =~= word);
    assert(!is_space(word[0]));
    assert(trim_start(word) == word);
    assert(word.take(word.len() as int) =~= word);
    assert(word.skip(word.len() as int) =~= none);
    assert(fields(word) =~= seq![word]);
    let s = word + gap;
    assert(word + seq![space] + rest =~= s);
    lemma_word_len_of(word, gap);
    assert(s[0] == word[0]);
    assert(trim_start(s) == s);
    assert(s.take(word.len() as int) =~= word);
    assert(s.skip(word.len() as int) =~= gap);
}

/// Whether a character does not occur in a text.
pub open spec fn lacks(s: Seq<char>, c: char) -> bool {
    forall|i: int| 0 <= i < s.len() ==> #[trigger] s[i] != c
}

proof fn lemma_find_at(s: Seq<char>, c: char, rest: Seq<char>)
    requires
        lacks(s, c),
    ensures
        find(s, c) == s.len(),
        find(s + seq![c] + rest, c) == s.len(),
    decreases s.len(),
{
    let t = s + seq![c] + rest;
    if s.len() == 0 {
        assert(t[0] == c);
    } else {
        assert(t[0] == s[0]);
        assert(t.skip(1) =~= s.skip(1) + seq![c] + rest);
        assert forall|i: int| 0 <= i < s.skip(1).len() implies #[trigger] s.skip(1)[i] != c by {
            assert(s[i + 1] != c);
        }
        lemma_find_at(s.skip(1), c, rest);
    }
}

/// A search ends at the first place where the character stands, or at the end of the text
/// where it does not occur.
pub proof fn law_a_search_ends_at_the_first_place(s: Seq<char>, c: char, rest: Seq<char>)
    requires
        lacks(s, c),
    ensures
        find(s, c) == s.len(),
        find(s + seq![c] + rest, c) == s.len(),
{
    lemma_find_at(s, c, rest);
}

/// The lines of a text: what stands before a line feed is the first of them, without a
/// carriage return before it, and the others are the lines of what follows; the last line
/// needs no line feed, and an empty text has no line.
pub proof fn law_lines_end_in_line_feeds(line: Seq<char>, rest: Seq<char>)
    requires
        lacks(line, '\n'),
    ensures
        lines(Seq::empty()) == Seq::<Seq<char>>::empty(),
        line.len() > 0 ==> lines(line) == seq![line],
        line.len() == 0 || line.last() != '\r' ==> lines(line + seq!['\n'] + rest) == seq![line]
            + lines(rest),
        lines(line + seq!['\r', '\n'] + rest) == seq![line] + lines(rest),
{
    lemma_find_at(line, '\n', rest);
    let s = line + seq!['\n'] + rest;
    assert(s.take(line.len() as int) =~= line);
    assert(s.skip(line.len() as int + 1) =~= rest);
    let long = line + seq!['\r'];
    assert(lacks(long, '\n'));
    lemma_find_at(long, '\n', rest);
    let t = long + seq!['\n'] + rest;
    assert(line + seq!['\r', '\n'] + rest =~= t);
    assert(t.take(long.len() as int) =~= long);
    assert(t.skip(long.len() as int + 1) =~= rest);
    assert(long.drop_last() =~= line);
}

proof fn lemma_pieces_concat(a: Seq<char>, b: Seq<char>)
    ensures
        pieces(a + seq!['/'] + b) == pieces(a) + pieces(b),
    decreases a.len(),
{
    let s = a + seq!['/'] + b;
    let n = find(a, '/');
    lemma_find(a, '/');
    lemma_find_first(a, '/');
    let head = a.take(n as int);
    if n >= a.len() {
        assert(head =~= a);
        lemma_find_at(a, '/', b);
        assert(s.take(a.len() as int) =~= a);
        assert(s.skip(a.len() as int + 1) =~= b);
    } else {
        let tail = a.skip(n as int + 1);
        assert(a =~= head + seq!['/'] + tail);
        assert(s =~= head + seq!['/'] + (tail + seq!['/'] + b));
        lemma_find_at(head, '/', tail + seq!['/'] + b);
        assert(s.take(n as int) =~= head);
        assert(s.skip(n as int + 1) =~= tail + seq!['/'] + b);
        lemma_pieces_concat(tail, b);
        assert(seq![head] + (pieces(tail) + pieces(b)) =~= (seq![head] + pieces(tail)) + pieces(b));
    }
}

proof fn lemma_find_first(s: Seq<char>, c: char)
    ensures
        lacks(s.take(find(s, c) as int), c),
        find(s, c) < s.len() ==> s[find(s, c) as int] == c,
        find(s, c) <= s.len(),
    decreases s.len(),
{
    lemma_find(s, c);
    if s.len() > 0 && s[0] != c {
        let rest = s.skip(1);
        lemma_find(rest, c);
        lemma_find_first(rest, c);
        let n = find(s, c) as int;
        assert forall|i: int| 0 <= i < s.take(n).len() implies #[trigger] s.take(n)[i] != c by {
            if i > 0 {
                assert(rest.take(n - 1)[i - 1] == s[i]);
            }
        }
    }
}

proof fn lemma_pieces_some(s: Seq<char>)
    ensures
        pieces(s).len() > 0,
{
    lemma_find(s, '/');
}

proof fn lemma_kept_prefix(a: Seq<Seq<char>>, b: Seq<Seq<char>>, n: nat)
    requires
        n <= a.len(),
    ensures
        kept(a + b, n) == kept(a, n),
    decreases n,
{
    if n > 0 {
        lemma_kept_prefix(a, b, (n - 1) as nat);
        assert((a + b)[n - 1] == a[n - 1]);
    }
}

/// The components of a path: a name behind a path is one more component, and a slash or a
/// single dot behind it adds none.
pub proof fn law_a_name_is_one_more_component(path: Seq<char>, name: Seq<char>)
    requires
        path.len() > 0,
        name.len() > 0,
        lacks(name, '/'),
        name != seq!['.'],
    ensures
        components(path + seq!['/'] + name) == components(path).push(name),
        components(path + seq!['/']) == components(path),
        components(path + seq!['/', '.']) == components(path),
        components(seq!['/'] + name) == seq![seq!['/'], name],
        components(name) == seq![name],
        components(Seq::empty()) == Seq::<Seq<char>>::empty(),
        components(seq!['.']) == seq![seq!['.']],
        components(seq!['/']) == seq![seq!['/']],
{
    let none = Seq::<char>::empty();
    let list = pieces(path);
    let n = list.len();
    lemma_pieces_some(path);
    lemma_find_at(name, '/', none);
    assert(pieces(name) =~= seq![name]);
    let dot = seq!['.'];
    assert(lacks(dot, '/'));
    lemma_find_at(dot, '/', none);
    assert(pieces(dot) =~= seq![dot]);
    assert(pieces(none) =~= seq![none]);
    lemma_pieces_concat(path, name);
    lemma_pieces_concat(path, none);
    lemma_pieces_concat(path, dot);
    lemma_pieces_concat(none, name);
    lemma_kept_prefix(list, seq![name], n);
    lemma_kept_prefix(list, seq![none], n);
    lemma_kept_prefix(list, seq![dot], n);
    let with_name = path + seq!['/'] + name;
    assert(with_name[0] == path[0]);
    assert((list + seq![name])[n as int] == name);
    assert(components(with_name) =~= components(path).push(name));
    let with_slash = path + seq!['/'];
    assert(with_slash =~= path + seq!['/'] + none);
    assert(with_slash[0] == path[0]);
    assert((list + seq![none])[n as int] == none);
    assert(components(with_slash) =~= components(path));
    let with_dot = path + seq!['/', '.'];
    assert(with_dot =~= path + seq!['/'] + dot);
    assert(with_dot[0] == path[0]);
    assert((list + seq![dot])[n as int] == dot);
    assert(components(with_dot) =~= components(path));
    let absolute = seq!['/'] + name;
    assert(absolute =~= none + seq!['/'] + name);
    assert(pieces(absolute) =~= seq![none, name]);
    reveal_with_fuel(kept, 3);
    assert(kept(pieces(absolute), 2) =~= seq![name]);
    assert(absolute[0] == '/');
    assert(components(absolute) =~= seq![seq!['/'], name]);
    assert(name[0] != '/');
    assert(kept(seq![name], 1) =~= seq![name]);
    assert(components(name) =~= seq![name]);
    assert(kept(seq![none], 1) =~= Seq::<Seq<char>>::empty());
    assert(components(none) =~= Seq::<Seq<char>>::empty());
    assert(kept(seq![dot], 1) =~= seq![dot]);
    assert(components(dot) =~= seq![dot]);
    lemma_pieces_concat(none, none);
    let root = seq!['/'];
    assert(root =~= none + seq!['/'] + none);
    assert(pieces(root) =~= seq![none, none]);
    assert(kept(pieces(root), 2) =~= Seq::<Seq<char>>::empty());
    assert(components(root) =~= seq![root]);
}

/// A path lies under itself and under the directories above it, and a name behind it lies
/// under the same paths and under itself, but under no other.
pub proof fn law_what_lies_under_a_path(path: Seq<char>, name: Seq<char>, base: Seq<char>)
    requires
        path.len() > 0,
        name.len() > 0,
        lacks(name, '/'),
        name != seq!['.'],
    ensures
        lies_under(path, path),
        lies_under(path + seq!['/'] + name, path),
        lies_under(path + seq!['/'] + name, base) <==> lies_under(path, base) || components(base)
            == components(path).push(name),
{
    law_a_name_is_one_more_component(path, name);
    let c = components(path);
    let d = c.push(name);
    let b = components(base);
    assert(c.take(c.len() as int) =~= c);
    assert(d.take(c.len() as int) =~= c);
    if b.is_prefix_of(d) {
        if b.len() <= c.len() {
            assert(c.take(b.len() as int) =~= d.take(b.len() as int));
        } else {
            assert(d.take(d.len() as int) =~= d);
        }
    }
    if b.is_prefix_of(c) {
        assert(d.take(b.len() as int) =~= c.take(b.len() as int));
    }
    assert(d.take(d.len() as int) =~= d);
}

/// A relative name in a directory is the two with one slash between them, and an absolute
/// one is itself.
pub proof fn law_names_are_joined_by_one_slash(dir: Seq<char>, name: Seq<char>)
    ensures
        name.len() > 0 && name[0] == '/' ==> path_joined(dir, name) == name,
        (name.len() == 0 || name[0] != '/') && dir.len() > 0 && dir.last() != '/' ==> path_joined(
            dir,
            name,
        ) == dir + seq!['/'] + name,
        (name.len() == 0 || name[0] != '/') && dir.len() > 0 && dir.last() == '/' ==> path_joined(
            dir,
            name,
        ) == dir + name,
        (name.len() == 0 || name[0] != '/') && dir.len() == 0 ==> path_joined(dir, name) == name,
{
    assert(Seq::<char>::empty() + name =~= name);
    if dir.len() == 0 {
        assert(dir + name =~= name);
    }
}

/// Replacing a character leaves the others as they are.
pub proof fn law_replacing_changes_one_character(s: Seq<char>, from: char, to: char)
    ensures
        replaced(s, from, to).len() == s.len(),
        forall|i: int|
            0 <= i < s.len() ==> #[trigger] replaced(s, from, to)[i] == if s[i] == from {
                to
            } else {
                s[i]
            },
{
}

/// Signed numbers and exit codes are shown with a sign where they are negative.
pub proof fn law_signs_are_shown(n: nat)
    ensures
        n > 0 ==> signed_decimal(-n) == seq!['-'] + decimal(n),
        signed_decimal(n as int) == decimal(n),
        code_words(None) == "None"@,
        forall|code: i32| #[trigger]
            code_words(Some(code)) == "Some("@ + signed_decimal(code as int) + ")"@,
{
}

/// A text occurs in another exactly where that is made of something, the text and something
/// more.
pub proof fn law_a_text_occurs_where_it_stands(
    before: Seq<char>,
    needle: Seq<char>,
    after: Seq<char>,
    s: Seq<char>,
)
    ensures
        occurs(before + needle + after, needle),
        occurs(s, needle) ==> exists|at: int|
            0 <= at <= s.len() - needle.len() && s == s.take(at) + needle + #[trigger] s.skip(
                at + needle.len(),
            ),
{
    let t = before + needle + after;
    let at = before.len() as int;
    assert(t.subrange(at, at + needle.len()) =~= needle);
    assert(stands_at(t, needle, at));
    if occurs(s, needle) {
        let at = choose|at: int| stands_at(s, needle, at);
        assert(s =~= s.take(at) + s.subrange(at, at + needle.len()) + s.skip(at + needle.len()));
    }
}

/// The texts of a list of strings are those of its strings, one by one.
pub proof fn law_texts_are_taken_one_by_one(list: Seq<String>, i: int)
    requires
        0 <= i < list.len(),
    ensures
        texts(list).len() == list.len(),
        texts(list)[i] == list[i]@,
{
}

} // verus!
