//! Text the recorder builds and reads: decimal numbers, argument parsing, and
//! searching the line-oriented output of command-line tools.

use vstd::prelude::*;

verus! {

/// The character for a decimal digit.
pub open spec fn digit_char(d: nat) -> char {
    if d == 0 {
        '0'
    } else if d == 1 {
        '1'
    } else if d == 2 {
        '2'
    } else if d == 3 {
        '3'
    } else if d == 4 {
        '4'
    } else if d == 5 {
        '5'
    } else if d == 6 {
        '6'
    } else if d == 7 {
        '7'
    } else if d == 8 {
        '8'
    } else {
        '9'
    }
}

/// `n` in decimal, without leading zeros.
pub open spec fn decimal(n: nat) -> Seq<char>
    decreases n,
{
    if n < 10 {
        seq![digit_char(n)]
    } else {
        decimal(n / 10).push(digit_char(n % 10))
    }
}

/// `i` in decimal, with a minus sign where it is negative.
pub open spec fn signed_decimal(i: int) -> Seq<char> {
    if i < 0 {
        seq!['-'] + decimal((-i) as nat)
    } else {
        decimal(i as nat)
    }
}

/// `n` zeros in a row.
pub open spec fn zeros(n: nat) -> Seq<char> {
    Seq::new(n, |i: int| '0')
}

/// `n` in decimal, filled up with zeros on the left to at least `width` characters.
pub open spec fn padded(n: nat, width: nat) -> Seq<char> {
    let d = decimal(n);
    if d.len() < width {
        zeros((width - d.len()) as nat) + d
    } else {
        d
    }
}

fn digit_str(d: u64) -> (r: &'static str)
    requires
        d < 10,
    ensures
        r@ == seq![digit_char(d as nat)],
{
    proof {
        reveal_strlit("0");
        reveal_strlit("1");
        reveal_strlit("2");
        reveal_strlit("3");
        reveal_strlit("4");
        reveal_strlit("5");
        reveal_strlit("6");
        reveal_strlit("7");
        reveal_strlit("8");
        reveal_strlit("9");
    }
    match d {
        0 => "0",
        1 => "1",
        2 => "2",
        3 => "3",
        4 => "4",
        5 => "5",
        6 => "6",
        7 => "7",
        8 => "8",
        _ => "9",
    }
}

/// Writes `n` in decimal.
pub fn decimal_string(n: u64) -> (r: String)
    ensures
        r@ == decimal(n as nat),
    decreases n,
{
    if n < 10 {
        digit_str(n).to_owned()
    } else {
        let mut s = decimal_string(n / 10);
        s.append(digit_str(n % 10));
        s
    }
}

/// Writes `n` in decimal, with its sign.
pub fn signed_string(n: i64) -> (r: String)
    ensures
        r@ == signed_decimal(n as int),
{
    if n < 0 {
        let magnitude: u64 = (-(n as i128)) as u64;
        let mut s = "-".to_owned();
        proof {
            reveal_strlit("-");
        }
        s.append(decimal_string(magnitude).as_str());
        assert(s@ =~= signed_decimal(n as int));
        s
    } else {
        decimal_string(n as u64)
    }
}

/// Writes `n` in decimal, zero-filled to `width` characters.
pub fn padded_string(n: u64, width: usize) -> (r: String)
    ensures
        r@ == padded(n as nat, width as nat),
{
    let d = decimal_string(n);
    let have = d.as_str().unicode_len();
    if have >= width {
        return d;
    }
    let mut s = String::new();
    let mut i: usize = 0;
    while i < width - have
        invariant
            have < width,
            i <= width - have,
            s@ == zeros(i as nat),
        decreases width - have - i,
    {
        s.append("0");
        i = i + 1;
        proof {
            reveal_strlit("0");
        }
        assert(s@ =~= zeros(i as nat));
    }
    s.append(d.as_str());
    s
}

/// The characters of a string, in order.
pub fn chars_of(s: &str) -> (r: Vec<char>)
    ensures
        r@ == s@,
{
    let mut out: Vec<char> = Vec::new();
    for c in it: s.chars()
        invariant
            it.seq() == s@,
            out@ == s@.take(it.index()),
    {
        out.push(c);
        assert(out@ =~= s@.take(it.index() + 1));
    }
    assert(out@ =~= s@);
    out
}

/// The texts of a list of strings.
pub open spec fn texts(list: Seq<String>) -> Seq<Seq<char>> {
    list.map_values(|s: String| s@)
}

/// Appends a copy of `s` to a list.
pub fn push_str(list: &mut Vec<String>, s: &str)
    ensures
        texts(final(list)@) == texts(old(list)@).push(s@),
{
    list.push(s.to_owned());
    assert(texts(list@) =~= texts(old(list)@).push(s@));
}

/// Appends `s` to a list.
pub fn push_string(list: &mut Vec<String>, s: String)
    ensures
        texts(final(list)@) == texts(old(list)@).push(s@),
{
    list.push(s);
    assert(texts(list@) =~= texts(old(list)@).push(s@));
}

/// `word` stands in `text` at position `at`.
pub open spec fn stands_at(text: Seq<char>, word: Seq<char>, at: int) -> bool {
    0 <= at && at + word.len() <= text.len() && text.subrange(at, at + word.len()) == word
}

/// `word` stands somewhere in `text`.
pub open spec fn holds_word(text: Seq<char>, word: Seq<char>) -> bool {
    exists|at: int| stands_at(text, word, at)
}

/// Decides [`stands_at`].
fn word_at(text: &Vec<char>, word: &Vec<char>, at: usize) -> (r: bool)
    requires
        at + word@.len() <= text@.len(),
    ensures
        r == stands_at(text@, word@, at as int),
{
    let len: usize = text.len();
    let mut i: usize = 0;
    while i < word.len()
        invariant
            len == text@.len(),
            at + word@.len() <= text@.len(),
            i <= word@.len(),
            forall|j: int| 0 <= j < i ==> text@[at + j] == word@[j],
        decreases word@.len() - i,
    {
        if text[at + i] != word[i] {
            assert(text@.subrange(at as int, at + word@.len())[i as int] != word@[i as int]);
            return false;
        }
        i = i + 1;
    }
    assert(text@.subrange(at as int, at + word@.len()) =~= word@);
    true
}

/// Decides [`holds_word`].
pub fn contains_word(text: &Vec<char>, word: &str) -> (r: bool)
    ensures
        r == holds_word(text@, word@),
{
    let letters = chars_of(word);
    if letters.len() > text.len() {
        return false;
    }
    let last: usize = text.len() - letters.len();
    let mut at: usize = 0;
    while at < last
        invariant
            letters@ == word@,
            last == text@.len() - letters@.len(),
            at <= last,
            forall|j: int| 0 <= j < at ==> !stands_at(text@, word@, j),
        decreases last - at,
    {
        if word_at(text, &letters, at) {
            return true;
        }
        at = at + 1;
    }
    word_at(text, &letters, last)
}

/// The two texts are the same.
pub fn same_text(a: &str, b: &str) -> (r: bool)
    ensures
        r == (a@ == b@),
{
    let x = chars_of(a);
    let y = chars_of(b);
    if x.len() != y.len() {
        return false;
    }
    let r: bool = word_at(&x, &y, 0);
    assert(a@.subrange(0, b@.len() as int) =~= a@);
    r
}

/// `text` begins with `prefix`.
pub open spec fn begins_with(text: Seq<char>, prefix: Seq<char>) -> bool {
    stands_at(text, prefix, 0)
}

/// The number behind `prefix` in `text`, if that is all that follows it.
pub open spec fn number_after(text: Seq<char>, prefix: Seq<char>) -> Option<u64> {
    if begins_with(text, prefix) {
        within_u64(unsigned(text.skip(prefix.len() as int)))
    } else {
        None
    }
}

/// Computes [`number_after`].
pub fn index_of(text: &str, prefix: &str) -> (r: Option<u64>)
    ensures
        r == number_after(text@, prefix@),
{
    let letters = chars_of(text);
    let head = chars_of(prefix);
    if head.len() > letters.len() || !word_at(&letters, &head, 0) {
        return None;
    }
    read_unsigned(&letters, head.len())
}

/// White space as Unicode has it.
pub open spec fn white(c: char) -> bool {
    ||| 9 <= c as u32 <= 13
    ||| c as u32 == 0x20
    ||| c as u32 == 0x85
    ||| c as u32 == 0xa0
    ||| c as u32 == 0x1680
    ||| 0x2000 <= c as u32 <= 0x200a
    ||| c as u32 == 0x2028
    ||| c as u32 == 0x2029
    ||| c as u32 == 0x202f
    ||| c as u32 == 0x205f
    ||| c as u32 == 0x3000
}

/// Decides [`white`].
pub fn is_white(c: char) -> (r: bool)
    ensures
        r == white(c),
{
    let n: u32 = c as u32;
    (9 <= n && n <= 13) || n == 0x20 || n == 0x85 || n == 0xa0 || n == 0x1680 || (0x2000 <= n && n
        <= 0x200a) || n == 0x2028 || n == 0x2029 || n == 0x202f || n == 0x205f || n == 0x3000
}

/// The first character of a line that is not white space.
pub open spec fn first_visible(line: Seq<char>) -> Option<char>
    decreases line.len(),
{
    if line.len() == 0 {
        None
    } else if white(line[0]) {
        first_visible(line.skip(1))
    } else {
        Some(line[0])
    }
}

/// Computes [`first_visible`].
pub fn first_visible_char(line: &Vec<char>) -> (r: Option<char>)
    ensures
        r == first_visible(line@),
{
    let mut i: usize = 0;
    assert(line@.skip(0) =~= line@);
    while i < line.len()
        invariant
            i <= line@.len(),
            first_visible(line@) == first_visible(line@.skip(i as int)),
        decreases line@.len() - i,
    {
        assert(line@.skip(i as int).skip(1) =~= line@.skip(i + 1));
        if !is_white(line[i]) {
            return Some(line[i]);
        }
        i = i + 1;
    }
    None
}

/// Position of the first line end of `text`, its length without one.
pub open spec fn line_end(text: Seq<char>) -> int
    decreases text.len(),
{
    if text.len() == 0 || text[0] == '\n' {
        0
    } else {
        1 + line_end(text.skip(1))
    }
}

/// The lines of `text`.
pub open spec fn lines(text: Seq<char>) -> Seq<Seq<char>>
    decreases text.len(),
{
    let n = line_end(text);
    if n < 0 || n >= text.len() {
        seq![text]
    } else {
        seq![text.take(n)] + lines(text.skip(n + 1))
    }
}

proof fn lemma_line_end(text: Seq<char>)
    ensures
        0 <= line_end(text) <= text.len(),
        forall|i: int| 0 <= i < line_end(text) ==> text[i] != '\n',
        line_end(text) < text.len() ==> text[line_end(text)] == '\n',
    decreases text.len(),
{
    if text.len() > 0 && text[0] != '\n' {
        let rest = text.skip(1);
        lemma_line_end(rest);
        assert forall|i: int| 0 <= i < line_end(text) implies text[i] != '\n' by {
            if i > 0 {
                assert(rest[i - 1] == text[i]);
            }
        }
    }
}

proof fn lemma_line_end_is(text: Seq<char>, n: int)
    requires
        0 <= n <= text.len(),
        forall|i: int| 0 <= i < n ==> text[i] != '\n',
        n < text.len() ==> text[n] == '\n',
    ensures
        line_end(text) == n,
{
    lemma_line_end(text);
    if line_end(text) < n {
        assert(text[line_end(text)] == '\n');
    }
}

/// The views of a list of lines.
pub open spec fn line_views(list: Seq<Vec<char>>) -> Seq<Seq<char>> {
    list.map_values(|l: Vec<char>| l@)
}

/// Splits a text into its lines.
pub fn split_lines(text: &str) -> (r: Vec<Vec<char>>)
    ensures
        line_views(r@) == lines(text@),
{
    let all = chars_of(text);
    let mut out: Vec<Vec<char>> = Vec::new();
    let mut line: Vec<char> = Vec::new();
    let mut i: usize = 0;
    let ghost mut start: int = 0;
    assert(all@.skip(0) =~= all@);
    assert(line_views(out@) + lines(all@.skip(0)) =~= lines(all@));
    while i < all.len()
        invariant
            0 <= start <= i <= all@.len(),
            line@ == all@.subrange(start, i as int),
            forall|j: int| start <= j < i ==> all@[j] != '\n',
            line_views(out@) + lines(all@.skip(start)) == lines(all@),
        decreases all@.len() - i,
    {
        let c: char = all[i];
        if c == '\n' {
            proof {
                let rest = all@.skip(start);
                lemma_line_end_is(rest, i - start);
                assert(rest.take(i - start) =~= line@);
                assert(rest.skip(i - start + 1) =~= all@.skip(i + 1));
                assert(lines(rest) == seq![line@] + lines(all@.skip(i + 1)));
            }
            let ghost before = out@;
            let ghost finished = line@;
            out.push(line);
            line = Vec::new();
            proof {
                start = i + 1;
                assert(line_views(out@) =~= line_views(before).push(finished));
                assert(line_views(out@) + lines(all@.skip(start)) =~= line_views(before) + (
                seq![finished] + lines(all@.skip(start))));
                assert(line@ =~= all@.subrange(start, i + 1));
            }
        } else {
            line.push(c);
            assert(line@ =~= all@.subrange(start, i + 1));
        }
        i = i + 1;
    }
    proof {
        let rest = all@.skip(start);
        assert(rest =~= line@);
        lemma_line_end_is(rest, rest.len() as int);
        assert(lines(rest) == seq![line@]);
    }
    let ghost before = out@;
    let ghost finished = line@;
    out.push(line);
    assert(line_views(out@) =~= line_views(before) + seq![finished]);
    out
}

/// A decimal digit.
pub open spec fn is_digit(c: char) -> bool {
    '0' <= c <= '9'
}

/// Digits only.
pub open spec fn all_digits(s: Seq<char>) -> bool {
    forall|i: int| 0 <= i < s.len() ==> is_digit(#[trigger] s[i])
}

/// The number that a row of digits stands for.
pub open spec fn value(s: Seq<char>) -> nat
    decreases s.len(),
{
    if s.len() == 0 {
        0
    } else {
        10 * value(s.drop_last()) + (s.last() as nat - '0' as nat) as nat
    }
}

/// What is left of a text without its first character.
pub open spec fn rest(s: Seq<char>) -> Seq<char> {
    s.skip(1)
}

/// The number that a text without sign stands for: one digit or more.
pub open spec fn digits(s: Seq<char>) -> Option<nat> {
    if s.len() > 0 && all_digits(s) {
        Some(value(s))
    } else {
        None
    }
}

/// The number that a text stands for: digits, with or without a plus sign.
pub open spec fn unsigned(s: Seq<char>) -> Option<nat> {
    if s.len() > 0 && s[0] == '+' {
        digits(rest(s))
    } else {
        digits(s)
    }
}

/// The number that a text stands for: digits, with or without a sign.
pub open spec fn integer(s: Seq<char>) -> Option<int> {
    if s.len() > 0 && s[0] == '-' {
        match digits(rest(s)) {
            Some(n) => Some(-(n as int)),
            None => None,
        }
    } else {
        match unsigned(s) {
            Some(n) => Some(n as int),
            None => None,
        }
    }
}

proof fn lemma_value_grows(s: Seq<char>, n: int)
    requires
        0 <= n <= s.len(),
    ensures
        value(s.take(n)) <= value(s),
    decreases s.len() - n,
{
    if n < s.len() {
        assert(s.take(n + 1).drop_last() =~= s.take(n));
        lemma_value_grows(s, n + 1);
    } else {
        assert(s.take(n) =~= s);
    }
}

/// Reads the digits of `s` from position `from` on; `None` where there is none,
/// where something else occurs, or where the number goes beyond `max`.
fn read_digits(s: &Vec<char>, from: usize, max: u64) -> (r: Option<u64>)
    requires
        from <= s@.len(),
    ensures
        r matches Some(n) ==> n <= max && digits(s@.skip(from as int)) == Some(n as nat),
        r is None ==> match digits(s@.skip(from as int)) {
            Some(n) => n > max,
            None => true,
        },
{
    let ghost tail = s@.skip(from as int);
    if from >= s.len() {
        return None;
    }
    let mut n: u64 = 0;
    let mut i: usize = from;
    assert(tail.take(0) =~= Seq::empty());
    while i < s.len()
        invariant
            from < s@.len(),
            from <= i <= s@.len(),
            tail == s@.skip(from as int),
            n <= max,
            n == value(tail.take(i - from)),
            forall|j: int| 0 <= j < i - from ==> is_digit(#[trigger] tail[j]),
        decreases s@.len() - i,
    {
        let c: char = s[i];
        assert(tail[i - from] == c);
        if c < '0' || c > '9' {
            return None;
        }
        let d: u64 = (c as u64) - 48;
        proof {
            assert(tail.take(i - from + 1).drop_last() =~= tail.take(i - from));
            lemma_value_grows(tail, i - from + 1);
        }
        let wide: u128 = 10 * (n as u128) + d as u128;
        if wide > max as u128 {
            return None;
        }
        n = wide as u64;
        i = i + 1;
    }
    assert(tail.take(i - from) =~= tail);
    Some(n)
}

/// A number cut to 64 bits: `None` beyond them.
pub open spec fn within_u64(n: Option<nat>) -> Option<u64> {
    match n {
        Some(n) => if n <= u64::MAX {
            Some(n as u64)
        } else {
            None
        },
        None => None,
    }
}

/// Reads the unsigned number, with or without a plus sign, that stands in
/// `letters` from position `from` to the end.
pub fn read_unsigned(letters: &Vec<char>, from: usize) -> (r: Option<u64>)
    requires
        from <= letters@.len(),
    ensures
        r == within_u64(unsigned(letters@.skip(from as int))),
{
    let ghost tail = letters@.skip(from as int);
    if from < letters.len() && letters[from] == '+' {
        assert(rest(tail) =~= letters@.skip(from + 1));
        read_digits(letters, from + 1, u64::MAX)
    } else {
        read_digits(letters, from, u64::MAX)
    }
}

/// Reads an unsigned number, with or without a plus sign, up to 64 bits.
pub fn parse_u64(s: &str) -> (r: Option<u64>)
    ensures
        r == within_u64(unsigned(s@)),
{
    let letters = chars_of(s);
    assert(letters@.skip(0) =~= letters@);
    read_unsigned(&letters, 0)
}

/// Reads a signed number of 64 bits.
pub fn parse_i64(s: &str) -> (r: Option<i64>)
    ensures
        r == (match integer(s@) {
            Some(n) => if i64::MIN <= n <= i64::MAX {
                Some(n as i64)
            } else {
                None
            },
            None => None,
        }),
{
    let letters = chars_of(s);
    assert(letters@.skip(0) =~= letters@);
    if letters.len() > 0 && letters[0] == '-' {
        match read_digits(&letters, 1, 9_223_372_036_854_775_808) {
            Some(n) => Some((-(n as i128)) as i64),
            None => None,
        }
    } else {
        let from: usize = if letters.len() > 0 && letters[0] == '+' {
            1
        } else {
            0
        };
        match read_digits(&letters, from, 9_223_372_036_854_775_807) {
            Some(n) => Some(n as i64),
            None => None,
        }
    }
}

/// A number written in decimal reads back as itself.
pub proof fn written_number_reads_back(n: nat)
    ensures
        decimal(n).len() > 0,
        is_digit(decimal(n)[0]),
        all_digits(decimal(n)),
        value(decimal(n)) == n,
        unsigned(decimal(n)) == Some(n),
    decreases n,
{
    let d = decimal(n);
    if n < 10 {
        assert(d.drop_last() =~= Seq::empty());
        assert(value(d.drop_last()) == 0);
    } else {
        written_number_reads_back(n / 10);
        assert(d.drop_last() =~= decimal(n / 10));
        assert forall|i: int| 0 <= i < d.len() implies is_digit(#[trigger] d[i]) by {
            if i < d.len() - 1 {
                assert(d[i] == decimal(n / 10)[i]);
            }
        }
        assert(d[0] == decimal(n / 10)[0]);
    }
}

/// `a` comes before `b` in the order of their characters: they differ first at a
/// place where `a` has the smaller one.
pub open spec fn text_before(a: Seq<char>, b: Seq<char>) -> bool {
    exists|k: int| #[trigger] differ_first_at(a, b, k)
}

/// At place `k`, the first where they differ, `a` has the smaller character.
pub open spec fn differ_first_at(a: Seq<char>, b: Seq<char>, k: int) -> bool {
    &&& 0 <= k < a.len()
    &&& k < b.len()
    &&& a[k] < b[k]
    &&& forall|j: int| 0 <= j < k ==> a[j] == b[j]
}

/// What comes first decides, what follows it does not.
pub proof fn earlier_part_decides(a: Seq<char>, b: Seq<char>, x: Seq<char>, y: Seq<char>)
    requires
        text_before(a, b),
    ensures
        text_before(a + x, b + y),
{
    let k = choose|k: int| #[trigger] differ_first_at(a, b, k);
    assert(differ_first_at(a + x, b + y, k));
}

/// Behind the same beginning the rest decides.
pub proof fn rest_decides(head: Seq<char>, x: Seq<char>, y: Seq<char>)
    requires
        text_before(x, y),
    ensures
        text_before(head + x, head + y),
{
    let k = choose|k: int| #[trigger] differ_first_at(x, y, k);
    assert(differ_first_at(head + x, head + y, head.len() + k));
}

/// Two digits of a number below a hundred.
proof fn lemma_padded_2(n: nat)
    requires
        n < 100,
    ensures
        padded(n, 2) == seq![digit_char(n / 10), digit_char(n % 10)],
{
    reveal_with_fuel(decimal, 3);
    assert(padded(n, 2) =~= seq![digit_char(n / 10), digit_char(n % 10)]);
}

/// Four digits of a number below ten thousand.
proof fn lemma_padded_4(n: nat)
    requires
        n < 10000,
    ensures
        padded(n, 4) == seq![
            digit_char(n / 1000),
            digit_char(n / 100 % 10),
            digit_char(n / 10 % 10),
            digit_char(n % 10),
        ],
{
    reveal_with_fuel(decimal, 5);
    assert(n / 10 / 10 == n / 100 && n / 100 / 10 == n / 1000);
    assert(padded(n, 4) =~= seq![
        digit_char(n / 1000),
        digit_char(n / 100 % 10),
        digit_char(n / 10 % 10),
        digit_char(n % 10),
    ]);
}

proof fn lemma_sort_2(a: nat, b: nat)
    requires
        a < b < 100,
    ensures
        text_before(padded(a, 2), padded(b, 2)),
{
    lemma_padded_2(a);
    lemma_padded_2(b);
    let k: int = if a / 10 < b / 10 {
        0
    } else {
        1
    };
    assert(differ_first_at(padded(a, 2), padded(b, 2), k));
}

proof fn lemma_four_digits(n: nat)
    requires
        n < 10000,
    ensures
        n == 1000 * (n / 1000) + 100 * (n / 100 % 10) + 10 * (n / 10 % 10) + n % 10,
        n / 1000 < 10,
{
    assert(n / 100 == 10 * (n / 1000) + n / 100 % 10);
    assert(n / 10 == 10 * (n / 100) + n / 10 % 10);
}

proof fn lemma_digits_sort(d: nat, e: nat)
    requires
        d < e < 10,
    ensures
        digit_char(d) < digit_char(e),
{
}

/// Four digits each, of which the first that differ are smaller in `a`.
proof fn lemma_sort_digits(a: Seq<nat>, b: Seq<nat>)
    requires
        a.len() == 4,
        b.len() == 4,
        a[0] < 10 && a[1] < 10 && a[2] < 10 && a[3] < 10,
        b[0] < 10 && b[1] < 10 && b[2] < 10 && b[3] < 10,
        1000 * a[0] + 100 * a[1] + 10 * a[2] + a[3] < 1000 * b[0] + 100 * b[1] + 10 * b[2] + b[3],
    ensures
        text_before(
            seq![digit_char(a[0]), digit_char(a[1]), digit_char(a[2]), digit_char(a[3])],
            seq![digit_char(b[0]), digit_char(b[1]), digit_char(b[2]), digit_char(b[3])],
        ),
{
    let x = seq![digit_char(a[0]), digit_char(a[1]), digit_char(a[2]), digit_char(a[3])];
    let y = seq![digit_char(b[0]), digit_char(b[1]), digit_char(b[2]), digit_char(b[3])];
    let k: int = if a[0] != b[0] {
        0
    } else if a[1] != b[1] {
        1
    } else if a[2] != b[2] {
        2
    } else {
        3
    };
    assert(a[k] < b[k]);
    lemma_digits_sort(a[k], b[k]);
    assert(differ_first_at(x, y, k));
}

proof fn lemma_sort_4(a: nat, b: nat)
    requires
        a < b < 10000,
    ensures
        text_before(padded(a, 4), padded(b, 4)),
{
    lemma_padded_4(a);
    lemma_padded_4(b);
    lemma_four_digits(a);
    lemma_four_digits(b);
    lemma_sort_digits(
        seq![a / 1000, a / 100 % 10, a / 10 % 10, a % 10],
        seq![b / 1000, b / 100 % 10, b / 10 % 10, b % 10],
    );
}

/// Zero-filled numbers of two or of four digits sort by value.
pub proof fn padded_numbers_sort(a: nat, b: nat)
    ensures
        a < 100 ==> padded(a, 2).len() == 2,
        a < 10000 ==> padded(a, 4).len() == 4,
        a < b < 100 ==> text_before(padded(a, 2), padded(b, 2)),
        a < b < 10000 ==> text_before(padded(a, 4), padded(b, 4)),
{
    if a < 100 {
        lemma_padded_2(a);
    }
    if a < 10000 {
        lemma_padded_4(a);
    }
    if a < b < 100 {
        lemma_sort_2(a, b);
    }
    if a < b < 10000 {
        lemma_sort_4(a, b);
    }
}

/// Digits are the ten characters from zero on, in order.
pub proof fn digits_follow_each_other(d: nat)
    requires
        d < 10,
    ensures
        digit_char(d) as int == 48 + d,
        is_digit(digit_char(d)),
{
}

/// A further digit makes what stands before it count ten times as much.
pub proof fn digits_count_by_their_place(s: Seq<char>, d: nat)
    requires
        d < 10,
    ensures
        value(s.push(digit_char(d))) == 10 * value(s) + d,
        value(Seq::empty()) == 0,
{
    assert(s.push(digit_char(d)).drop_last() =~= s);
}

/// A number written in decimal begins with no zero, but for zero itself.
pub proof fn written_number_has_no_leading_zero(n: nat)
    ensures
        n > 0 ==> decimal(n)[0] != '0',
        n == 0 ==> decimal(n) == seq!['0'],
    decreases n,
{
    if n >= 10 {
        written_number_has_no_leading_zero(n / 10);
        written_number_reads_back(n / 10);
        assert(decimal(n)[0] == decimal(n / 10)[0]);
    }
}

/// A number written with its sign reads back as itself, and so does one written
/// with a plus sign.
pub proof fn signed_number_reads_back(i: int)
    ensures
        integer(signed_decimal(i)) == Some(i),
        i >= 0 ==> integer(seq!['+'] + decimal(i as nat)) == Some(i),
        i >= 0 ==> unsigned(seq!['+'] + decimal(i as nat)) == Some(i as nat),
        i < 0 ==> unsigned(signed_decimal(i)) is None,
{
    if i < 0 {
        written_number_reads_back((-i) as nat);
        assert(rest(signed_decimal(i)) =~= decimal((-i) as nat));
        assert(signed_decimal(i)[0] == '-');
    } else {
        written_number_reads_back(i as nat);
        assert(rest(seq!['+'] + decimal(i as nat)) =~= decimal(i as nat));
    }
}

proof fn lemma_leading_zeros(n: nat, k: nat)
    ensures
        value(zeros(k) + decimal(n)) == n,
        all_digits(zeros(k) + decimal(n)),
    decreases n,
{
    written_number_reads_back(n);
    let s = zeros(k) + decimal(n);
    assert(s.drop_last() =~= zeros(k) + decimal(n).drop_last());
    if n < 10 {
        lemma_zeros_are_nothing(k);
        assert(s.drop_last() =~= zeros(k));
    } else {
        lemma_leading_zeros(n / 10, k);
        assert(decimal(n).drop_last() =~= decimal(n / 10));
    }
}

proof fn lemma_zeros_are_nothing(k: nat)
    ensures
        value(zeros(k)) == 0,
    decreases k,
{
    if k > 0 {
        lemma_zeros_are_nothing((k - 1) as nat);
        assert(zeros(k).drop_last() =~= zeros((k - 1) as nat));
    }
}

/// A number that was filled up with zeros reads back as itself, and has as many
/// characters as asked for, unless it needs more.
pub proof fn padded_number_reads_back(n: nat, width: nat)
    ensures
        unsigned(padded(n, width)) == Some(n),
        padded(n, width).len() == (if decimal(n).len() < width {
            width
        } else {
            decimal(n).len()
        }),
{
    written_number_reads_back(n);
    if decimal(n).len() < width {
        lemma_leading_zeros(n, (width - decimal(n).len()) as nat);
    }
}

/// A text that holds anything but digits behind its sign stands for no number.
pub proof fn other_text_is_no_number(s: Seq<char>, i: int)
    requires
        0 < i < s.len(),
        !('0' <= s[i] <= '9'),
    ensures
        unsigned(s) is None,
        integer(s) is None,
{
    assert(!is_digit(s[i]));
    assert(rest(s)[i - 1] == s[i]);
}

/// A text without a digit stands for no number, nor does one that begins with anything
/// but a digit or a sign.
pub proof fn sign_alone_is_no_number(s: Seq<char>)
    ensures
        s.len() == 0 ==> unsigned(s) is None && integer(s) is None,
        s.len() == 1 && !('0' <= s[0] <= '9') ==> unsigned(s) is None && integer(s) is None,
        s.len() > 0 && s[0] != '+' && s[0] != '-' && !('0' <= s[0] <= '9') ==> unsigned(s) is None
            && integer(s) is None,
        s.len() > 0 && s[0] == '-' ==> unsigned(s) is None,
{
    if s.len() > 0 && !('0' <= s[0] <= '9') {
        assert(!is_digit(s[0]));
    }
}

/// A text holds a word exactly if it is something, the word, and something more.
pub proof fn held_word_stands_between(text: Seq<char>, word: Seq<char>)
    ensures
        forall|a: Seq<char>, b: Seq<char>| text == #[trigger] (a + word + b) ==> holds_word(text, word),
        holds_word(text, word) ==> exists|a: Seq<char>, b: Seq<char>|
            text == #[trigger] (a + word + b),
{
    assert forall|a: Seq<char>, b: Seq<char>| text == #[trigger] (a + word + b) implies holds_word(
        text,
        word,
    ) by {
        assert(text.subrange(a.len() as int, (a.len() + word.len()) as int) =~= word);
        assert(stands_at(text, word, a.len() as int));
    }
    if holds_word(text, word) {
        let at = choose|at: int| stands_at(text, word, at);
        let a = text.take(at);
        let b = text.skip(at + word.len());
        assert(text =~= a + word + b);
    }
}

/// White space of the ASCII range is the space and the five control characters from
/// the tabulator to the carriage return.
pub proof fn printed_characters_are_visible(c: char)
    requires
        (c as int) < 128,
    ensures
        white(c) <==> c == ' ' || 9 <= c as int <= 13,
{
}

/// The first visible character of a line is the one that only white space stands
/// before.
pub proof fn first_visible_follows_white_space(line: Seq<char>)
    ensures
        first_visible(line) is None ==> forall|k: int|
            0 <= k < line.len() ==> white(#[trigger] line[k]),
        first_visible(line) matches Some(c) ==> exists|k: int|
            0 <= k < line.len() && #[trigger] line[k] == c && !white(c) && forall|j: int|
                0 <= j < k ==> white(#[trigger] line[j]),
    decreases line.len(),
{
    if line.len() > 0 && white(line[0]) {
        let less = line.skip(1);
        first_visible_follows_white_space(less);
        if first_visible(less) is None {
            assert forall|k: int| 0 <= k < line.len() implies white(#[trigger] line[k]) by {
                if k > 0 {
                    assert(less[k - 1] == line[k]);
                }
            }
        } else {
            let c = first_visible(less)->0;
            let k = choose|k: int|
                0 <= k < less.len() && #[trigger] less[k] == c && !white(c) && forall|j: int|
                    0 <= j < k ==> white(#[trigger] less[j]);
            assert(line[k + 1] == c);
            assert forall|j: int| 0 <= j < k + 1 implies white(#[trigger] line[j]) by {
                if j > 0 {
                    assert(less[j - 1] == line[j]);
                }
            }
        }
    } else if line.len() > 0 {
        assert(line[0] == first_visible(line)->0);
    }
}

/// Lines with a line end between each two.
pub open spec fn rejoined(list: Seq<Seq<char>>) -> Seq<char>
    decreases list.len(),
{
    if list.len() == 0 {
        Seq::empty()
    } else if list.len() == 1 {
        list[0]
    } else {
        list[0] + seq!['\n'] + rejoined(list.skip(1))
    }
}

/// The lines of a text, put together again, are the text, and none holds a line end.
pub proof fn lines_make_up_the_text(text: Seq<char>)
    ensures
        rejoined(lines(text)) == text,
        forall|i: int| 0 <= i < lines(text).len() ==> !(#[trigger] lines(text)[i]).contains('\n'),
        lines(text).len() > 0,
    decreases text.len(),
{
    lemma_line_end(text);
    let n = line_end(text);
    if n < text.len() {
        let head = text.take(n);
        let more = lines(text.skip(n + 1));
        lines_make_up_the_text(text.skip(n + 1));
        assert(lines(text) =~= seq![head] + more);
        assert(lines(text).skip(1) =~= more);
        assert(text =~= head + seq!['\n'] + text.skip(n + 1));
        assert forall|i: int| 0 <= i < lines(text).len() implies !(
        #[trigger] lines(text)[i]).contains('\n') by {
            if i == 0 {
                assert(lines(text)[0] == head);
            } else {
                assert(lines(text)[i] == more[i - 1]);
            }
        }
    }
}

} // verus!
