//! Text as sequences of characters: case, white space, search, lines and
//! decimal numbers.
use vstd::prelude::*;
use vstd::string::*;

verus! {

/// `String::push` puts one character behind the text.
pub assume_specification[ String::push ](s: &mut String, c: char)
    ensures
        final(s)@ == old(s)@.push(c),
;

/// The characters with the Unicode property `White_Space`.
pub open spec fn is_space(c: char) -> bool {
    let n = c as u32;
    ||| 0x9 <= n <= 0xd
    ||| n == 0x20
    ||| n == 0x85
    ||| n == 0xa0
    ||| n == 0x1680
    ||| 0x2000 <= n <= 0x200a
    ||| n == 0x2028
    ||| n == 0x2029
    ||| n == 0x202f
    ||| n == 0x205f
    ||| n == 0x3000
}

/// An ASCII letter or digit.
pub open spec fn is_alphanumeric(c: char) -> bool {
    'a' <= c <= 'z' || 'A' <= c <= 'Z' || '0' <= c <= '9'
}

/// The lower case of an ASCII capital; any other character itself.
pub open spec fn lower(c: char) -> char {
    if 'A' <= c <= 'Z' {
        ((c as u32) + 32) as char
    } else {
        c
    }
}

/// A text with its ASCII capitals in lower case.
pub open spec fn lowered(s: Seq<char>) -> Seq<char> {
    s.map_values(|c: char| lower(c))
}

/// A text without the white space in front.
pub open spec fn trimmed_start(s: Seq<char>) -> Seq<char>
    decreases s.len(),
{
    if s.len() > 0 && is_space(s.first()) {
        trimmed_start(s.drop_first())
    } else {
        s
    }
}

/// A text without the white space behind.
pub open spec fn trimmed_end(s: Seq<char>) -> Seq<char>
    decreases s.len(),
{
    if s.len() > 0 && is_space(s.last()) {
        trimmed_end(s.drop_last())
    } else {
        s
    }
}

/// A text without the white space around it.
pub open spec fn trimmed(s: Seq<char>) -> Seq<char> {
    trimmed_end(trimmed_start(s))
}

/// Whether there is nothing but white space in a text.
pub open spec fn is_blank(s: Seq<char>) -> bool {
    forall|i: int| 0 <= i < s.len() ==> is_space(#[trigger] s[i])
}

/// Whether `needle` stands in `hay` from place `i` on.
pub open spec fn occurs_at(hay: Seq<char>, needle: Seq<char>, i: int) -> bool {
    0 <= i && i + needle.len() <= hay.len() && hay.subrange(i, i + needle.len()) == needle
}

/// Whether `needle` stands anywhere in `hay`.
pub open spec fn contains(hay: Seq<char>, needle: Seq<char>) -> bool {
    exists|i: int| occurs_at(hay, needle, i)
}

/// The first place at or behind `from` where `needle` stands in `hay`.
pub open spec fn find(hay: Seq<char>, needle: Seq<char>, from: int) -> Option<int>
    decreases hay.len() + 1 - from,
{
    if from + needle.len() > hay.len() {
        None
    } else if occurs_at(hay, needle, from) {
        Some(from)
    } else {
        find(hay, needle, from + 1)
    }
}

/// The first place at or behind `from` of the character `c`.
pub open spec fn find_char(hay: Seq<char>, c: char, from: int) -> Option<int>
    decreases hay.len() - from,
{
    if from >= hay.len() {
        None
    } else if hay[from] == c {
        Some(from)
    } else {
        find_char(hay, c, from + 1)
    }
}

pub open spec fn starts_with(s: Seq<char>, head: Seq<char>) -> bool {
    occurs_at(s, head, 0)
}

pub open spec fn ends_with(s: Seq<char>, tail: Seq<char>) -> bool {
    occurs_at(s, tail, s.len() - tail.len())
}

/// A line without the carriage return that belonged to its line ending.
pub open spec fn without_return(line: Seq<char>) -> Seq<char> {
    if line.len() > 0 && line.last() == '\r' {
        line.drop_last()
    } else {
        line
    }
}

/// The lines of a text: each ends before `\n` or `\r\n`, the last may lack its
/// ending, and there is no line behind a final ending.
pub open spec fn lines(s: Seq<char>) -> Seq<Seq<char>>
    decreases s.len(),
{
    if s.len() == 0 {
        Seq::empty()
    } else {
        match find_char(s, '\n', 0) {
            None => seq![s],
            Some(i) => if 0 <= i < s.len() {
                seq![without_return(s.take(i))] + lines(s.skip(i + 1))
            } else {
                Seq::empty()
            },
        }
    }
}

/// The texts one behind the other, with `sep` between each two.
pub open spec fn joined(parts: Seq<Seq<char>>, sep: Seq<char>) -> Seq<char>
    decreases parts.len(),
{
    if parts.len() == 0 {
        Seq::empty()
    } else if parts.len() == 1 {
        parts[0]
    } else {
        joined(parts.drop_last(), sep) + sep + parts.last()
    }
}

/// The decimal digit of a number below ten.
pub open spec fn digit(n: nat) -> char {
    (('0' as u32) + n) as char
}

/// A number in decimal.
pub open spec fn decimal(n: nat) -> Seq<char>
    decreases n,
{
    if n < 10 {
        seq![digit(n)]
    } else {
        decimal(n / 10).push(digit(n % 10))
    }
}

/// What some texts say.
pub open spec fn views(texts: Seq<String>) -> Seq<Seq<char>> {
    texts.map_values(|s: String| s@)
}

/// What an optional text says.
pub open spec fn option_view(text: Option<String>) -> Option<Seq<char>> {
    match text {
        Some(s) => Some(s@),
        None => None,
    }
}

/// What an optional text says.
pub open spec fn option_str_view(text: Option<&str>) -> Option<Seq<char>> {
    match text {
        Some(s) => Some(s@),
        None => None,
    }
}

/// How many bytes a text takes.
pub open spec fn byte_len(s: Seq<char>) -> usize {
    vstd::utf8::encode_utf8(s).len() as usize
}

/// Whether a text takes at most so many bytes.
pub fn fits(s: &str, limit: usize) -> (out: bool)
    ensures
        out == (byte_len(s@) <= limit),
{
    s.len() <= limit
}

/// The same text, or nothing again.
pub fn copy_option(text: &Option<String>) -> (out: Option<String>)
    ensures
        option_view(out) == option_view(*text),
{
    match text {
        Some(s) => Some(s.clone()),
        None => None,
    }
}

/// The characters of a text, in order.
pub fn chars_of(s: &str) -> (out: Vec<char>)
    ensures
        out@ == s@,
{
    let mut out: Vec<char> = Vec::new();
    for c in it: s.chars()
        invariant
            out@ == it.seq().take(it.index() as int),
            it.seq() == s@,
    {
        out.push(c);
    }
    out
}

/// The text made of `chars[from..to]`.
pub fn text_of(chars: &Vec<char>, from: usize, to: usize) -> (out: String)
    requires
        from <= to <= chars@.len(),
    ensures
        out@ == chars@.subrange(from as int, to as int),
{
    let mut out: String = String::new();
    let mut i: usize = from;
    while i < to
        invariant
            from <= i <= to <= chars@.len(),
            out@ == chars@.subrange(from as int, i as int),
        decreases to - i,
    {
        out.push(chars[i]);
        i += 1;
    }
    out
}

/// Whether two texts say the same.
pub fn same(a: &str, b: &str) -> (out: bool)
    ensures
        out == (a@ == b@),
{
    a.to_owned() == b.to_owned()
}

/// Whether one of `texts` says `wanted`.
pub fn any_same(texts: &Vec<String>, wanted: &str) -> (out: bool)
    ensures
        out == views(texts@).contains(wanted@),
{
    let mut i: usize = 0;
    while i < texts.len()
        invariant
            i <= texts@.len(),
            forall|j: int| 0 <= j < i ==> (#[trigger] texts@[j])@ != wanted@,
        decreases texts@.len() - i,
    {
        if same(texts[i].as_str(), wanted) {
            proof {
                assert(views(texts@)[i as int] == wanted@);
            }
            return true;
        }
        i += 1;
    }
    proof {
        assert forall|j: int| 0 <= j < texts@.len() implies #[trigger] views(texts@)[j]
            != wanted@ by {
            assert(texts@[j]@ != wanted@);
        }
    }
    false
}

pub fn is_white(c: char) -> (out: bool)
    ensures
        out == is_space(c),
{
    let n: u32 = c as u32;
    (0x9 <= n && n <= 0xd) || n == 0x20 || n == 0x85 || n == 0xa0 || n == 0x1680 || (0x2000 <= n
        && n <= 0x200a) || n == 0x2028 || n == 0x2029 || n == 0x202f || n == 0x205f || n == 0x3000
}

pub fn is_letter_or_digit(c: char) -> (out: bool)
    ensures
        out == is_alphanumeric(c),
{
    ('a' <= c && c <= 'z') || ('A' <= c && c <= 'Z') || ('0' <= c && c <= '9')
}

pub fn lower_char(c: char) -> (out: char)
    ensures
        out == lower(c),
{
    if 'A' <= c && c <= 'Z' {
        ((c as u8) + 32) as char
    } else {
        c
    }
}

/// The characters with ASCII capitals in lower case.
pub fn lower_chars(chars: &Vec<char>) -> (out: Vec<char>)
    ensures
        out@ == lowered(chars@),
{
    let mut out: Vec<char> = Vec::new();
    let mut i: usize = 0;
    while i < chars.len()
        invariant
            i <= chars@.len(),
            out@ =~= lowered(chars@).take(i as int),
        decreases chars@.len() - i,
    {
        out.push(lower_char(chars[i]));
        i += 1;
    }
    out
}

/// The text with ASCII capitals in lower case.
pub fn lower_text(s: &str) -> (out: String)
    ensures
        out@ == lowered(s@),
{
    let chars: Vec<char> = lower_chars(&chars_of(s));
    text_of(&chars, 0, chars.len())
}

proof fn lemma_trim_start(s: Seq<char>, k: int)
    requires
        0 <= k <= s.len(),
        forall|i: int| 0 <= i < k ==> is_space(#[trigger] s[i]),
    ensures
        trimmed_start(s) == trimmed_start(s.skip(k)),
    decreases k,
{
    if k > 0 {
        let rest = s.drop_first();
        assert forall|i: int| 0 <= i < k - 1 implies is_space(#[trigger] rest[i]) by {
            assert(rest[i] == s[i + 1]);
        }
        lemma_trim_start(rest, k - 1);
        assert(rest.skip(k - 1) =~= s.skip(k));
    } else {
        assert(s.skip(0) =~= s);
    }
}

proof fn lemma_trim_end(s: Seq<char>, k: int)
    requires
        0 <= k <= s.len(),
        forall|i: int| k <= i < s.len() ==> is_space(#[trigger] s[i]),
    ensures
        trimmed_end(s) == trimmed_end(s.take(k)),
    decreases s.len() - k,
{
    if k < s.len() {
        let rest = s.drop_last();
        lemma_trim_end(rest, k);
        assert(rest.take(k) =~= s.take(k));
    } else {
        assert(s.take(k) =~= s);
    }
}

/// The part of `chars[from..to]` that is left when the white space around it
/// is taken off, as a pair of places.
pub fn trim_range(chars: &Vec<char>, from: usize, to: usize) -> (out: (usize, usize))
    requires
        from <= to <= chars@.len(),
    ensures
        from <= out.0 <= out.1 <= to,
        chars@.subrange(out.0 as int, out.1 as int) == trimmed(
            chars@.subrange(from as int, to as int),
        ),
{
    let ghost whole = chars@.subrange(from as int, to as int);
    let mut a: usize = from;
    while a < to && is_white(chars[a])
        invariant
            from <= a <= to <= chars@.len(),
            whole == chars@.subrange(from as int, to as int),
            forall|i: int| 0 <= i < a - from ==> is_space(#[trigger] whole[i]),
        decreases to - a,
    {
        proof {
            assert(whole[a - from] == chars@[a as int]);
        }
        a += 1;
    }
    let ghost front = chars@.subrange(a as int, to as int);
    proof {
        lemma_trim_start(whole, a - from);
        assert(whole.skip(a - from) =~= front);
        assert(trimmed_start(front) == front);
    }
    let mut b: usize = to;
    while a < b && is_white(chars[b - 1])
        invariant
            from <= a <= b <= to <= chars@.len(),
            front == chars@.subrange(a as int, to as int),
            forall|i: int| b - a <= i < front.len() ==> is_space(#[trigger] front[i]),
        decreases b,
    {
        proof {
            assert(front[b - 1 - a] == chars@[b - 1]);
        }
        b -= 1;
    }
    proof {
        lemma_trim_end(front, b - a);
        let middle = chars@.subrange(a as int, b as int);
        assert(front.take(b - a) =~= middle);
        assert(trimmed_end(middle) == middle);
    }
    (a, b)
}

/// The text without the white space around it.
pub fn trim(s: &str) -> (out: String)
    ensures
        out@ == trimmed(s@),
{
    let chars: Vec<char> = chars_of(s);
    let (a, b) = trim_range(&chars, 0, chars.len());
    proof {
        assert(chars@.subrange(0, chars@.len() as int) =~= s@);
    }
    text_of(&chars, a, b)
}

/// The text without the white space behind it.
pub fn trim_end(s: &str) -> (out: String)
    ensures
        out@ == trimmed_end(s@),
{
    let chars: Vec<char> = chars_of(s);
    let mut b: usize = chars.len();
    while 0 < b && is_white(chars[b - 1])
        invariant
            b <= chars@.len(),
            forall|i: int| b <= i < chars@.len() ==> is_space(#[trigger] chars@[i]),
        decreases b,
    {
        b -= 1;
    }
    proof {
        lemma_trim_end(chars@, b as int);
        let front = chars@.take(b as int);
        assert(trimmed_end(front) == front);
        assert(front =~= chars@.subrange(0, b as int));
    }
    text_of(&chars, 0, b)
}

/// A text is blank exactly where trimming leaves nothing of it.
pub proof fn law_a_blank_text_trims_to_nothing(s: Seq<char>)
    ensures
        is_blank(s) <==> trimmed(s).len() == 0,
{
    if is_blank(s) {
        lemma_trim_start(s, s.len() as int);
        assert(s.skip(s.len() as int) =~= Seq::empty());
    } else {
        lemma_some_left_start(s);
        lemma_some_left_end(trimmed_start(s));
    }
}

proof fn lemma_some_left_start(s: Seq<char>)
    requires
        !is_blank(s),
    ensures
        !is_blank(trimmed_start(s)),
    decreases s.len(),
{
    if is_space(s.first()) {
        let rest = s.drop_first();
        let i = choose|i: int| 0 <= i < s.len() && !is_space(#[trigger] s[i]);
        assert(rest[i - 1] == s[i]);
        lemma_some_left_start(rest);
    }
}

proof fn lemma_some_left_end(s: Seq<char>)
    requires
        !is_blank(s),
    ensures
        trimmed_end(s).len() > 0,
    decreases s.len(),
{
    if is_space(s.last()) {
        let rest = s.drop_last();
        let i = choose|i: int| 0 <= i < s.len() && !is_space(#[trigger] s[i]);
        assert(rest[i] == s[i]);
        lemma_some_left_end(rest);
    }
}

/// Whether there is nothing but white space in `chars[from..to]`.
pub fn blank_range(chars: &Vec<char>, from: usize, to: usize) -> (out: bool)
    requires
        from <= to <= chars@.len(),
    ensures
        out == is_blank(chars@.subrange(from as int, to as int)),
{
    let ghost whole = chars@.subrange(from as int, to as int);
    let mut i: usize = from;
    while i < to
        invariant
            from <= i <= to <= chars@.len(),
            whole == chars@.subrange(from as int, to as int),
            forall|j: int| 0 <= j < i - from ==> is_space(#[trigger] whole[j]),
        decreases to - i,
    {
        proof {
            assert(whole[i - from] == chars@[i as int]);
        }
        if !is_white(chars[i]) {
            return false;
        }
        i += 1;
    }
    true
}

/// Whether `needle` stands in `hay` from place `at` on.
pub fn stands_at(hay: &Vec<char>, needle: &Vec<char>, at: usize) -> (out: bool)
    requires
        at <= hay@.len(),
    ensures
        out == occurs_at(hay@, needle@, at as int),
{
    let size: usize = hay.len();
    if needle.len() > size - at {
        return false;
    }
    let mut k: usize = 0;
    while k < needle.len()
        invariant
            k <= needle@.len(),
            at + needle@.len() <= hay@.len() == size,
            forall|j: int| 0 <= j < k ==> hay@[at + j] == #[trigger] needle@[j],
        decreases needle@.len() - k,
    {
        if hay[at + k] != needle[k] {
            proof {
                assert(hay@.subrange(at as int, at + needle@.len())[k as int] == hay@[at + k]);
            }
            return false;
        }
        k += 1;
    }
    proof {
        assert(hay@.subrange(at as int, at + needle@.len()) =~= needle@);
    }
    true
}

/// The first place at or behind `from` where `needle` stands in `hay`.
pub fn find_in(hay: &Vec<char>, needle: &Vec<char>, from: usize) -> (out: Option<usize>)
    requires
        from <= hay@.len(),
    ensures
        match out {
            Some(i) => find(hay@, needle@, from as int) == Some(i as int),
            None => find(hay@, needle@, from as int) is None,
        },
{
    let mut at: usize = from;
    while at < hay.len()
        invariant
            from <= at <= hay@.len(),
            find(hay@, needle@, from as int) == find(hay@, needle@, at as int),
        decreases hay@.len() - at,
    {
        if stands_at(hay, needle, at) {
            return Some(at);
        }
        if needle.len() > hay.len() - at {
            return None;
        }
        at += 1;
    }
    if stands_at(hay, needle, at) {
        return Some(at);
    }
    proof {
        if needle@.len() == 0 {
            assert(hay@.subrange(at as int, at as int) =~= needle@);
        }
    }
    None
}

/// The first place at or behind `from` of the character `c`.
pub fn find_char_in(hay: &Vec<char>, c: char, from: usize) -> (out: Option<usize>)
    requires
        from <= hay@.len(),
    ensures
        match out {
            Some(i) => find_char(hay@, c, from as int) == Some(i as int),
            None => find_char(hay@, c, from as int) is None,
        },
{
    let mut at: usize = from;
    while at < hay.len()
        invariant
            from <= at <= hay@.len(),
            find_char(hay@, c, from as int) == find_char(hay@, c, at as int),
        decreases hay@.len() - at,
    {
        if hay[at] == c {
            return Some(at);
        }
        at += 1;
    }
    None
}

/// A first place is a place, and the first.
pub proof fn lemma_find(hay: Seq<char>, needle: Seq<char>, from: int)
    requires
        0 <= from,
    ensures
        match find(hay, needle, from) {
            Some(i) => from <= i && occurs_at(hay, needle, i) && forall|j: int|
                from <= j < i ==> !occurs_at(hay, needle, j),
            None => forall|j: int| from <= j ==> !occurs_at(hay, needle, j),
        },
    decreases hay.len() + 1 - from,
{
    if from + needle.len() <= hay.len() && !occurs_at(hay, needle, from) {
        lemma_find(hay, needle, from + 1);
    }
}

/// A first place is a place, and the first.
pub proof fn lemma_find_char(hay: Seq<char>, c: char, from: int)
    requires
        0 <= from,
    ensures
        match find_char(hay, c, from) {
            Some(i) => from <= i < hay.len() && hay[i] == c && forall|j: int|
                from <= j < i ==> hay[j] != c,
            None => forall|j: int| from <= j < hay.len() ==> hay[j] != c,
        },
    decreases hay.len() - from,
{
    if from < hay.len() && hay[from] != c {
        lemma_find_char(hay, c, from + 1);
    }
}

/// Whether `needle` stands anywhere in `hay`.
pub fn contains_chars(hay: &Vec<char>, needle: &Vec<char>) -> (out: bool)
    ensures
        out == contains(hay@, needle@),
{
    proof {
        lemma_find(hay@, needle@, 0);
    }
    find_in(hay, needle, 0).is_some()
}

/// Whether `needle` stands anywhere in `hay`.
pub fn contains_text(hay: &str, needle: &str) -> (out: bool)
    ensures
        out == contains(hay@, needle@),
{
    contains_chars(&chars_of(hay), &chars_of(needle))
}

pub fn starts_with_chars(s: &Vec<char>, head: &str) -> (out: bool)
    ensures
        out == starts_with(s@, head@),
{
    stands_at(s, &chars_of(head), 0)
}

pub fn starts_with_text(s: &str, head: &str) -> (out: bool)
    ensures
        out == starts_with(s@, head@),
{
    starts_with_chars(&chars_of(s), head)
}

pub fn ends_with_chars(s: &Vec<char>, tail: &str) -> (out: bool)
    ensures
        out == ends_with(s@, tail@),
{
    let tail: Vec<char> = chars_of(tail);
    tail.len() <= s.len() && stands_at(s, &tail, s.len() - tail.len())
}

/// The first `limit` characters of a text, or all of a shorter one.
pub open spec fn head(s: Seq<char>, limit: nat) -> Seq<char> {
    if s.len() <= limit {
        s
    } else {
        s.take(limit as int)
    }
}

/// The first `limit` characters of a text, or all of a shorter one.
pub fn head_text(s: &str, limit: usize) -> (out: String)
    ensures
        out@ == head(s@, limit as nat),
{
    let chars: Vec<char> = chars_of(s);
    let to: usize = if chars.len() <= limit {
        chars.len()
    } else {
        limit
    };
    proof {
        assert(chars@.subrange(0, to as int) =~= head(s@, limit as nat));
    }
    text_of(&chars, 0, to)
}

/// The lines of a text.
pub fn lines_of(chars: &Vec<char>) -> (out: Vec<String>)
    ensures
        views(out@) == lines(chars@),
{
    let mut out: Vec<String> = Vec::new();
    let mut at: usize = 0;
    proof {
        assert(chars@.skip(0) =~= chars@);
        assert(views(out@) + lines(chars@) =~= lines(chars@));
    }
    while at < chars.len()
        invariant
            at <= chars@.len(),
            views(out@) + lines(chars@.skip(at as int)) == lines(chars@),
        decreases chars@.len() - at,
    {
        let ghost rest = chars@.skip(at as int);
        let ghost before = out@;
        proof {
            lemma_find_char(chars@, '\n', at as int);
            lemma_find_char(rest, '\n', 0);
        }
        match find_char_in(chars, '\n', at) {
            Some(end) => {
                proof {
                    let i = end - at;
                    assert(rest[i] == '\n');
                    let k = find_char(rest, '\n', 0)->0;
                    assert(rest[k] == chars@[at + k]);
                    assert(k == i) by {
                        if k < i {
                            assert(chars@[at + k] != '\n');
                        }
                    }
                }
                let stop: usize = if end > at && chars[end - 1] == '\r' {
                    end - 1
                } else {
                    end
                };
                let line: String = text_of(chars, at, stop);
                proof {
                    let i = end - at;
                    assert(rest.take(i) =~= chars@.subrange(at as int, end as int));
                    assert(line@ =~= without_return(rest.take(i)));
                    assert(rest.skip(i + 1) =~= chars@.skip(end + 1));
                }
                out.push(line);
                proof {
                    assert(views(out@) =~= views(before).push(line@));
                    assert(views(out@) + lines(chars@.skip(end + 1)) =~= views(before) + lines(
                        rest,
                    ));
                }
                at = end + 1;
            },
            None => {
                let line: String = text_of(chars, at, chars.len());
                proof {
                    assert(find_char(rest, '\n', 0) is None) by {
                        if find_char(rest, '\n', 0) is Some {
                            let k = find_char(rest, '\n', 0)->0;
                            assert(rest[k] == chars@[at + k]);
                        }
                    }
                    assert(line@ =~= rest);
                }
                out.push(line);
                proof {
                    assert(views(out@) =~= views(before) + lines(rest));
                    assert(chars@.skip(chars@.len() as int) =~= Seq::empty());
                    assert(views(out@) + lines(Seq::<char>::empty()) =~= views(out@));
                }
                at = chars.len();
            },
        }
    }
    proof {
        assert(chars@.skip(at as int) =~= Seq::empty());
        assert(views(out@) + Seq::<Seq<char>>::empty() =~= views(out@));
    }
    out
}

/// A number in decimal.
pub fn decimal_text(n: u64) -> (out: String)
    ensures
        out@ == decimal(n as nat),
    decreases n,
{
    let last: char = (48u8 + (n % 10) as u8) as char;
    if n < 10 {
        let mut out: String = String::new();
        out.push(last);
        out
    } else {
        let mut out: String = decimal_text(n / 10);
        out.push(last);
        out
    }
}

/// `a` and `b`, one behind the other.
pub fn concat2(a: &str, b: &str) -> (out: String)
    ensures
        out@ == a@ + b@,
{
    let mut out: String = a.to_owned();
    out.append(b);
    out
}

/// `a`, `b` and `c`, one behind the other.
pub fn concat3(a: &str, b: &str, c: &str) -> (out: String)
    ensures
        out@ == a@ + b@ + c@,
{
    let mut out: String = a.to_owned();
    out.append(b);
    out.append(c);
    out
}

/// White space is tab, line feed, vertical tab, form feed, carriage return,
/// space, and the white space of Unicode beyond ASCII; nothing else is.
pub proof fn law_white_space(c: char)
    ensures
        is_space(c) <==> {
            ||| c == '\t' || c == '\n' || c == '\u{b}' || c == '\u{c}' || c == '\r' || c == ' '
            ||| c == '\u{85}' || c == '\u{a0}' || c == '\u{1680}'
            ||| c == '\u{2000}' || c == '\u{2001}' || c == '\u{2002}' || c == '\u{2003}'
            ||| c == '\u{2004}' || c == '\u{2005}' || c == '\u{2006}' || c == '\u{2007}'
            ||| c == '\u{2008}' || c == '\u{2009}' || c == '\u{200a}'
            ||| c == '\u{2028}' || c == '\u{2029}' || c == '\u{202f}' || c == '\u{205f}'
            ||| c == '\u{3000}'
        },
{
}

/// Letters and digits are those of ASCII, by their codes.
pub proof fn law_letters_and_digits(c: char)
    ensures
        is_alphanumeric(c) <==> {
            ||| 48 <= c as int <= 57
            ||| 65 <= c as int <= 90
            ||| 97 <= c as int <= 122
        },
{
}

/// Lowering a text keeps its length; it moves each ASCII capital to its small
/// letter and leaves every other character alone.
pub proof fn law_lower_case(s: Seq<char>, i: int)
    requires
        0 <= i < s.len(),
    ensures
        lowered(s).len() == s.len(),
        65 <= s[i] as int <= 90 ==> lowered(s)[i] as int == s[i] as int + 32,
        !(65 <= s[i] as int <= 90) ==> lowered(s)[i] == s[i],
{
}

/// Trimming takes away the white space around a text and nothing within it.
pub proof fn law_trimming(before: Seq<char>, middle: Seq<char>, after: Seq<char>)
    requires
        forall|i: int| 0 <= i < before.len() ==> is_space(#[trigger] before[i]),
        forall|i: int| 0 <= i < after.len() ==> is_space(#[trigger] after[i]),
        middle.len() > 0 ==> !is_space(middle.first()) && !is_space(middle.last()),
    ensures
        trimmed(before + middle + after) == middle,
        trimmed_start(before + middle) == middle,
        trimmed_end(middle + after) == middle,
{
    let whole = before + middle + after;
    let back = middle + after;
    if middle.len() == 0 {
        assert(before + middle =~= before);
        assert(back =~= after);
        lemma_trim_start(before, before.len() as int);
        assert(before.skip(before.len() as int) =~= middle);
        assert forall|i: int| 0 <= i < whole.len() implies is_space(#[trigger] whole[i]) by {
            if i >= before.len() {
                assert(whole[i] == after[i - before.len()]);
            }
        }
        lemma_trim_start(whole, whole.len() as int);
        assert(whole.skip(whole.len() as int) =~= middle);
        lemma_trim_end(after, 0);
        assert(after.take(0) =~= middle);
    } else {
        lemma_trim_start(whole, before.len() as int);
        assert(whole.skip(before.len() as int) =~= back);
        assert(back.first() == middle.first());
        lemma_trim_end(back, middle.len() as int);
        assert(back.take(middle.len() as int) =~= middle);
        lemma_trim_start(before + middle, before.len() as int);
        assert((before + middle).skip(before.len() as int) =~= middle);
    }
}

/// A text contains another exactly where it can be cut into what stands in front
/// of it, the other text, and what stands behind it.
pub proof fn law_containing(hay: Seq<char>, needle: Seq<char>)
    ensures
        contains(hay, needle) <==> exists|before: Seq<char>, after: Seq<char>|
            hay == #[trigger] (before + needle + after),
        starts_with(hay, needle) <==> needle.is_prefix_of(hay),
        ends_with(hay, needle) <==> needle.is_suffix_of(hay),
{
    if contains(hay, needle) {
        let i = choose|i: int| occurs_at(hay, needle, i);
        let before = hay.take(i);
        let after = hay.skip(i + needle.len());
        assert(hay =~= before + needle + after);
    }
    if exists|before: Seq<char>, after: Seq<char>| hay == #[trigger] (before + needle + after) {
        let (before, after) = choose|before: Seq<char>, after: Seq<char>|
            hay == #[trigger] (before + needle + after);
        assert(hay.subrange(before.len() as int, (before.len() + needle.len()) as int) =~= needle);
        assert(occurs_at(hay, needle, before.len() as int));
    }
    if needle.is_prefix_of(hay) {
        assert(hay.subrange(0, needle.len() as int) =~= needle);
    }
    if needle.is_suffix_of(hay) {
        assert(hay.subrange(hay.len() - needle.len(), hay.len() as int) =~= needle);
    }
}

/// A text stands at a place exactly where that many characters stand in front of
/// it.
pub proof fn law_a_place_is_what_stands_in_front(
    before: Seq<char>,
    needle: Seq<char>,
    after: Seq<char>,
)
    ensures
        occurs_at(before + needle + after, needle, before.len() as int),
{
    let hay = before + needle + after;
    assert(hay.subrange(before.len() as int, (before.len() + needle.len()) as int) =~= needle);
}

/// A text is cut into lines at its line feeds. A carriage return in front of a
/// line feed goes with it; any other stays; and behind the last line feed there
/// is a line only if something stands there.
pub proof fn law_lines(line: Seq<char>, rest: Seq<char>)
    requires
        !line.contains('\n'),
    ensures
        lines(Seq::empty()) == Seq::<Seq<char>>::empty(),
        line.len() > 0 ==> lines(line) == seq![line],
        (line.len() == 0 || line.last() != '\r') ==> lines(line.push('\n') + rest) == seq![line]
            + lines(rest),
        lines(line.push('\r').push('\n') + rest) == seq![line] + lines(rest),
{
    lemma_find_char(line, '\n', 0);
    if find_char(line, '\n', 0) is Some {
        let i = find_char(line, '\n', 0)->0;
        assert(line[i] == '\n');
    }
    lemma_line_in_front(line, rest);
    let longer = line.push('\r');
    assert forall|i: int| 0 <= i < longer.len() implies longer[i] != '\n' by {
        if i < line.len() {
            assert(longer[i] == line[i]);
        }
    }
    lemma_line_in_front(longer, rest);
    assert(longer.drop_last() =~= line);
}

proof fn lemma_line_in_front(line: Seq<char>, rest: Seq<char>)
    requires
        !line.contains('\n'),
    ensures
        lines(line.push('\n') + rest) == seq![without_return(line)] + lines(rest),
{
    let whole = line.push('\n') + rest;
    lemma_find_char(whole, '\n', 0);
    assert(whole[line.len() as int] == '\n');
    let i = find_char(whole, '\n', 0)->0;
    if i < line.len() {
        assert(whole[i] == line[i]);
        assert(line.contains('\n'));
    }
    assert(i == line.len());
    assert(whole.take(i) =~= line);
    assert(whole.skip(i + 1) =~= rest);
}

/// Joining puts the separator between each two neighbours and nowhere else.
pub proof fn law_joining(front: Seq<Seq<char>>, back: Seq<Seq<char>>, sep: Seq<char>)
    ensures
        joined(Seq::empty(), sep) == Seq::<char>::empty(),
        front.len() == 1 ==> joined(front, sep) == front[0],
        front.len() > 0 && back.len() > 0 ==> joined(front + back, sep) == joined(front, sep) + sep
            + joined(back, sep),
    decreases back.len(),
{
    if front.len() > 0 && back.len() > 0 {
        let all = front + back;
        assert(all.last() == back.last());
        assert(all.drop_last() =~= front + back.drop_last());
        if back.len() == 1 {
            assert(all.drop_last() =~= front);
        } else {
            law_joining(front, back.drop_last(), sep);
            assert(joined(front, sep) + sep + joined(back.drop_last(), sep) + sep + back.last()
                =~= joined(front, sep) + sep + (joined(back.drop_last(), sep) + sep
                + back.last()));
        }
    }
}

/// The number that digits stand for.
pub open spec fn number_in(digits: Seq<char>) -> int
    decreases digits.len(),
{
    if digits.len() == 0 {
        0
    } else {
        10 * number_in(digits.drop_last()) + (digits.last() as int - 48)
    }
}

/// A number in decimal is made of digits, stands for the number, and does not
/// begin with a zero unless it is zero.
pub proof fn law_decimal(n: nat)
    ensures
        number_in(decimal(n)) == n,
        decimal(n).len() > 0,
        forall|i: int| 0 <= i < decimal(n).len() ==> 48 <= (#[trigger] decimal(n)[i]) as int <= 57,
        decimal(n).first() == '0' <==> n == 0,
    decreases n,
{
    reveal_with_fuel(number_in, 2);
    if n >= 10 {
        law_decimal(n / 10);
        let front = decimal(n / 10);
        assert(decimal(n).drop_last() =~= front);
        assert(decimal(n).first() == front.first());
        assert(decimal(n).last() == digit(n % 10));
    } else {
        assert(decimal(n).drop_last() =~= Seq::empty());
    }
}

/// The head of a text is its first characters, as many as asked for or as there
/// are.
pub proof fn law_head(s: Seq<char>, limit: nat)
    ensures
        head(s, limit).is_prefix_of(s),
        head(s, limit).len() == (if s.len() < limit {
            s.len()
        } else {
            limit
        }),
{
    assert(head(s, limit) =~= s.take(head(s, limit).len() as int));
}

/// What texts say is what each of them says, in order.
pub proof fn law_texts_say_what_each_says(
    texts: Seq<String>,
    optional: Option<String>,
    borrowed: Option<&str>,
)
    ensures
        views(texts).len() == texts.len(),
        forall|i: int| 0 <= i < texts.len() ==> (#[trigger] views(texts)[i]) == texts[i]@,
        optional matches Some(s) ==> option_view(optional) == Some(s@),
        optional is None ==> option_view(optional) is None,
        borrowed matches Some(s) ==> option_str_view(borrowed) == Some(s@),
        borrowed is None ==> option_str_view(borrowed) is None,
{
}

/// A first place is the first one at which the text, or the character, stands;
/// where there is none, none is found.
pub proof fn law_first_places(hay: Seq<char>, needle: Seq<char>, c: char, from: int, place: int)
    requires
        0 <= from <= place,
    ensures
        occurs_at(hay, needle, place) && (forall|j: int|
            from <= j < place ==> !occurs_at(hay, needle, j)) ==> find(hay, needle, from) == Some(
            place,
        ),
        find(hay, needle, from) is None ==> !occurs_at(hay, needle, place),
        place < hay.len() && hay[place] == c && (forall|j: int| from <= j < place ==> hay[j] != c)
            ==> find_char(hay, c, from) == Some(place),
        find_char(hay, c, from) is None && place < hay.len() ==> hay[place] != c,
{
    lemma_find(hay, needle, from);
    lemma_find_char(hay, c, from);
}

}
