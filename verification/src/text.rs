//! Small operations on text.

use vstd::prelude::*;

verus! {

/// The position of the first `c`, or the length if there is none.
pub open spec fn position(s: Seq<char>, c: char) -> nat
    decreases s.len(),
{
    if s.len() == 0 || s[0] == c {
        0
    } else {
        1 + position(s.drop_first(), c)
    }
}

/// What stands before the first `c` does not hold one, and `c` follows it
/// unless the text ends.
pub proof fn lemma_position(s: Seq<char>, c: char)
    ensures
        position(s, c) <= s.len(),
        position(s, c) < s.len() ==> s[position(s, c) as int] == c,
        forall|i: int| 0 <= i < position(s, c) ==> s[i] != c,
    decreases s.len(),
{
    if s.len() > 0 && s[0] != c {
        let rest = s.drop_first();
        lemma_position(rest, c);
        assert forall|i: int| 0 <= i < position(s, c) implies s[i] != c by {
            if i > 0 {
                assert(rest[i - 1] == s[i]);
            }
        }
    }
}

/// The first place where `c` stands is its position.
pub proof fn lemma_position_is(s: Seq<char>, c: char, n: nat)
    requires
        n <= s.len(),
        forall|i: int| 0 <= i < n ==> s[i] != c,
        n < s.len() ==> s[n as int] == c,
    ensures
        position(s, c) == n,
    decreases s.len(),
{
    lemma_position(s, c);
    let p = position(s, c);
    if p < n {
        assert(s[p as int] == c);
    } else if n < p {
        assert(s[n as int] != c);
    }
}

/// The position of the first `c`, or the length if there is none.
pub fn find_char(s: &str, c: char) -> (r: usize)
    ensures
        r == position(s@, c),
        r <= s@.len(),
{
    let n = s.unicode_len();
    let mut i: usize = 0;
    while i < n
        invariant
            i <= n,
            n == s@.len(),
            forall|j: int| 0 <= j < i ==> s@[j] != c,
        decreases n - i,
    {
        if s.get_char(i) == c {
            proof {
                lemma_position_is(s@, c, i as nat);
            }
            return i;
        }
        i = i + 1;
    }
    proof {
        lemma_position_is(s@, c, n as nat);
    }
    n
}

/// Whether two texts are the same.
pub fn same_text(a: &str, b: &str) -> (r: bool)
    ensures
        r == (a@ == b@),
{
    a.to_owned() == b.to_owned()
}

/// Whether a text begins with another one.
pub open spec fn begins_with(s: Seq<char>, prefix: Seq<char>) -> bool {
    prefix.len() <= s.len() && s.take(prefix.len() as int) == prefix
}

pub fn starts_with(s: &str, prefix: &str) -> (r: bool)
    ensures
        r == begins_with(s@, prefix@),
{
    let n = prefix.unicode_len();
    if n > s.unicode_len() {
        return false;
    }
    let start = s.substring_char(0, n);
    assert(start@ =~= s@.take(n as int));
    same_text(start, prefix)
}

/// The characters that have the Unicode property of being white space.
pub open spec fn is_space(c: char) -> bool {
    ||| '\u{9}' <= c <= '\u{d}'
    ||| c == ' '
    ||| c == '\u{85}'
    ||| c == '\u{a0}'
    ||| c == '\u{1680}'
    ||| '\u{2000}' <= c <= '\u{200a}'
    ||| c == '\u{2028}'
    ||| c == '\u{2029}'
    ||| c == '\u{202f}'
    ||| c == '\u{205f}'
    ||| c == '\u{3000}'
}

fn is_white_space(c: char) -> (r: bool)
    ensures
        r == is_space(c),
{
    ('\u{9}' <= c && c <= '\u{d}') || c == ' ' || c == '\u{85}' || c == '\u{a0}' || c
        == '\u{1680}' || ('\u{2000}' <= c && c <= '\u{200a}') || c == '\u{2028}' || c
        == '\u{2029}' || c == '\u{202f}' || c == '\u{205f}' || c == '\u{3000}'
}

/// How many characters at the start are white space, or are not.
pub open spec fn span(s: Seq<char>, space: bool) -> nat
    decreases s.len(),
{
    if s.len() > 0 && is_space(s[0]) == space {
        1 + span(s.drop_first(), space)
    } else {
        0
    }
}

/// The word with the given number among those that white space separates.
pub open spec fn word(s: Seq<char>, n: nat) -> Option<Seq<char>>
    decreases n,
{
    let t = s.skip(span(s, true) as int);
    if t.len() == 0 {
        None
    } else {
        let len = span(t, false) as int;
        if n == 0 {
            Some(t.take(len))
        } else {
            word(t.skip(len), (n - 1) as nat)
        }
    }
}

fn find_span(s: &str, space: bool) -> (r: usize)
    ensures
        r == span(s@, space),
        r <= s@.len(),
{
    let n = s.unicode_len();
    let mut i: usize = 0;
    assert(s@.skip(0) =~= s@);
    while i < n
        invariant
            i <= n,
            n == s@.len(),
            span(s@, space) == i + span(s@.skip(i as int), space),
        decreases n - i,
    {
        if is_white_space(s.get_char(i)) != space {
            assert(s@.skip(i as int)[0] == s@[i as int]);
            return i;
        }
        assert(s@.skip(i as int).drop_first() =~= s@.skip(i + 1));
        i = i + 1;
    }
    n
}

/// The word with the given number among those that white space separates.
pub fn nth_word(s: &str, n: usize) -> (r: Option<&str>)
    ensures
        match r {
            Some(w) => word(s@, n as nat) == Some(w@),
            None => word(s@, n as nat) is None,
        },
    decreases n,
{
    let start = find_span(s, true);
    let t = s.substring_char(start, s.unicode_len());
    assert(t@ =~= s@.skip(start as int));
    let total = t.unicode_len();
    if total == 0 {
        return None;
    }
    let len = find_span(t, false);
    if n == 0 {
        let w = t.substring_char(0, len);
        assert(w@ =~= t@.take(len as int));
        Some(w)
    } else {
        let rest = t.substring_char(len, total);
        assert(rest@ =~= t@.skip(len as int));
        nth_word(rest, n - 1)
    }
}

/// The value of a decimal digit.
pub open spec fn digit_value(c: char) -> Option<nat> {
    if '0' <= c <= '9' {
        Some((c as int - '0' as int) as nat)
    } else {
        None
    }
}

/// The number that digits stand for, behind those that stand for `acc`.
pub open spec fn digits_value(s: Seq<char>, acc: nat) -> Option<nat>
    decreases s.len(),
{
    if s.len() == 0 {
        Some(acc)
    } else {
        match digit_value(s[0]) {
            Some(d) => digits_value(s.drop_first(), 10 * acc + d),
            None => None,
        }
    }
}

/// The number that a text stands for: digits, with a plus sign before them or
/// without, as long as the number can be held.
pub open spec fn unsigned(s: Seq<char>) -> Option<usize> {
    let digits = if s.len() > 0 && s[0] == '+' {
        s.drop_first()
    } else {
        s
    };
    if digits.len() == 0 {
        None
    } else {
        match digits_value(digits, 0) {
            Some(n) => if n <= usize::MAX {
                Some(n as usize)
            } else {
                None
            },
            None => None,
        }
    }
}

/// Digits never stand for less than those before them.
proof fn lemma_digits_value(s: Seq<char>, acc: nat)
    ensures
        digits_value(s, acc) matches Some(n) ==> n >= acc,
    decreases s.len(),
{
    if s.len() > 0 {
        if let Some(d) = digit_value(s[0]) {
            lemma_digits_value(s.drop_first(), 10 * acc + d);
        }
    }
}

pub fn parse_unsigned(s: &str) -> (r: Option<usize>)
    ensures
        r == unsigned(s@),
{
    let n = s.unicode_len();
    let mut i: usize = 0;
    if n > 0 && s.get_char(0) == '+' {
        i = 1;
        assert(s@.skip(1) =~= s@.drop_first());
    } else {
        assert(s@.skip(0) =~= s@);
    }
    let ghost digits = s@.skip(i as int);
    if i >= n {
        return None;
    }
    let mut acc: usize = 0;
    while i < n
        invariant
            i <= n,
            n == s@.len(),
            digits.len() > 0,
            unsigned(s@) == (match digits_value(digits, 0) {
                Some(n) => if n <= usize::MAX {
                    Some(n as usize)
                } else {
                    None
                },
                None => None,
            }),
            digits_value(digits, 0) == digits_value(s@.skip(i as int), acc as nat),
        decreases n - i,
    {
        let c = s.get_char(i);
        let ghost rest = s@.skip(i as int);
        assert(rest[0] == c);
        assert(rest.drop_first() =~= s@.skip(i + 1));
        if !('0' <= c && c <= '9') {
            return None;
        }
        let d: usize = c as usize - '0' as usize;
        if acc > usize::MAX / 10 || acc * 10 > usize::MAX - d {
            proof {
                lemma_digits_value(rest.drop_first(), 10 * acc as nat + d as nat);
            }
            return None;
        }
        acc = acc * 10 + d;
        i = i + 1;
    }
    assert(s@.skip(i as int).len() == 0);
    Some(acc)
}

/// A text with dots behind it up to a width.
pub open spec fn dotted(s: Seq<char>, width: nat) -> Seq<char>
    decreases width - s.len(),
{
    if s.len() >= width {
        s
    } else {
        dotted(s.push('.'), width)
    }
}

pub fn pad_with_dots(s: String, width: usize) -> (r: String)
    ensures
        r@ == dotted(s@, width as nat),
{
    let ghost whole = dotted(s@, width as nat);
    let mut s = s;
    let mut n = s.as_str().unicode_len();
    proof {
        reveal_strlit(".");
    }
    while n < width
        invariant
            n == s@.len(),
            "."@ =~= seq!['.'],
            whole == dotted(s@, width as nat),
        decreases width - n,
    {
        let ghost before = s@;
        s.append(".");
        assert(before + "."@ =~= before.push('.'));
        n = n + 1;
    }
    s
}

/// The lines of a text. A carriage return before the end of a line belongs to
/// the end.
pub open spec fn lines(s: Seq<char>) -> Seq<Seq<char>>
    decreases s.len(),
{
    if s.len() == 0 {
        seq![]
    } else {
        let n = position(s, '\n');
        if n >= s.len() {
            seq![s]
        } else {
            seq![without_return(s.take(n as int))] + lines(s.skip(n as int + 1))
        }
    }
}

/// A line without the carriage return at its end.
pub open spec fn without_return(s: Seq<char>) -> Seq<char> {
    if s.len() > 0 && s.last() == '\r' {
        s.drop_last()
    } else {
        s
    }
}

/// The texts that strings hold.
pub open spec fn views(strings: Seq<String>) -> Seq<Seq<char>> {
    Seq::new(strings.len(), |i: int| strings[i]@)
}

pub fn split_lines(s: &str) -> (r: Vec<String>)
    ensures
        views(r@) == lines(s@),
{
    let mut r: Vec<String> = Vec::new();
    let mut rest = s;
    assert(views(r@) =~= seq![]);
    assert(seq![] + lines(s@) =~= lines(s@));
    let mut left = rest.unicode_len();
    while left > 0
        invariant
            left == rest@.len(),
            views(r@) + lines(rest@) == lines(s@),
        decreases left,
    {
        let ghost before = views(r@);
        let ghost text = rest@;
        let n = find_char(rest, '\n');
        if n >= left {
            r.push(rest.to_owned());
            assert(views(r@) =~= before + seq![text]);
            assert(before + lines(text) =~= views(r@));
            return r;
        }
        let line = rest.substring_char(0, n);
        assert(line@ =~= text.take(n as int));
        let line = if n > 0 && line.get_char(n - 1) == '\r' {
            let cut = line.substring_char(0, n - 1);
            assert(cut@ =~= line@.drop_last());
            cut
        } else {
            line
        };
        assert(line@ == without_return(text.take(n as int)));
        r.push(line.to_owned());
        rest = rest.substring_char(n + 1, left);
        assert(rest@ =~= text.skip(n as int + 1));
        assert(views(r@) =~= before.push(line@));
        assert(before + lines(text) =~= views(r@) + lines(rest@));
        left = rest.unicode_len();
    }
    assert(views(r@) + lines(rest@) =~= views(r@));
    r
}

/// The pieces of a text between the places where `c` stands.
pub open spec fn pieces(s: Seq<char>, c: char) -> Seq<Seq<char>>
    decreases s.len(),
{
    let n = position(s, c);
    if n >= s.len() {
        seq![s]
    } else {
        seq![s.take(n as int)] + pieces(s.skip(n as int + 1), c)
    }
}

pub fn split_on(s: &str, c: char) -> (r: Vec<String>)
    ensures
        views(r@) == pieces(s@, c),
{
    let mut r: Vec<String> = Vec::new();
    let mut rest = s;
    assert(views(r@) + pieces(s@, c) =~= pieces(s@, c));
    let mut left = rest.unicode_len();
    let mut n = find_char(rest, c);
    while n < left
        invariant
            left == rest@.len(),
            n == position(rest@, c),
            views(r@) + pieces(rest@, c) == pieces(s@, c),
        decreases left,
    {
        let ghost before = views(r@);
        let ghost text = rest@;
        let piece = rest.substring_char(0, n);
        assert(piece@ =~= text.take(n as int));
        r.push(piece.to_owned());
        rest = rest.substring_char(n + 1, left);
        assert(rest@ =~= text.skip(n as int + 1));
        assert(views(r@) =~= before.push(piece@));
        assert(before + pieces(text, c) =~= views(r@) + pieces(rest@, c));
        left = rest.unicode_len();
        n = find_char(rest, c);
    }
    let ghost before = views(r@);
    r.push(rest.to_owned());
    assert(views(r@) =~= before.push(rest@));
    assert(before + pieces(rest@, c) =~= views(r@));
    r
}

/// A decimal digit.
pub open spec fn digit(d: int) -> char {
    if d == 0 {
        '0'
    } else if d == 1 {
        '1'
    } else if d == 2 {
        '2'
    } else if d == 3 {
        '3'
    } else if d == 4 {
        '4'
    } else if d == 5 {
        '5'
    } else if d == 6 {
        '6'
    } else if d == 7 {
        '7'
    } else if d == 8 {
        '8'
    } else {
        '9'
    }
}

/// A natural number in decimal.
pub open spec fn decimal(n: nat) -> Seq<char>
    decreases n,
{
    if n < 10 {
        seq![digit(n as int)]
    } else {
        decimal(n / 10).push(digit((n % 10) as int))
    }
}

/// A number in decimal, with a sign if it is negative.
pub open spec fn signed_decimal(n: int) -> Seq<char> {
    if n < 0 {
        "-"@ + decimal((-n) as nat)
    } else {
        decimal(n as nat)
    }
}

fn digit_text(d: u8) -> (r: &'static str)
    requires
        d < 10,
    ensures
        r@ == seq![digit(d as int)],
{
    match d {
        0 => {
            proof {
                reveal_strlit("0");
            }
            "0"
        },
        1 => {
            proof {
                reveal_strlit("1");
            }
            "1"
        },
        2 => {
            proof {
                reveal_strlit("2");
            }
            "2"
        },
        3 => {
            proof {
                reveal_strlit("3");
            }
            "3"
        },
        4 => {
            proof {
                reveal_strlit("4");
            }
            "4"
        },
        5 => {
            proof {
                reveal_strlit("5");
            }
            "5"
        },
        6 => {
            proof {
                reveal_strlit("6");
            }
            "6"
        },
        7 => {
            proof {
                reveal_strlit("7");
            }
            "7"
        },
        8 => {
            proof {
                reveal_strlit("8");
            }
            "8"
        },
        _ => {
            proof {
                reveal_strlit("9");
            }
            "9"
        },
    }
}

pub fn decimal_text(n: u128) -> (r: String)
    ensures
        r@ == decimal(n as nat),
    decreases n,
{
    if n < 10 {
        digit_text(n as u8).to_owned()
    } else {
        let mut s = decimal_text(n / 10);
        let ghost high = s@;
        let last = digit_text((n % 10) as u8);
        s.append(last);
        assert(high + last@ =~= high.push(digit((n % 10) as int)));
        s
    }
}

pub fn signed_decimal_text(n: i128) -> (r: String)
    ensures
        r@ == signed_decimal(n as int),
{
    if n < 0 {
        let magnitude: u128 = if n == i128::MIN {
            0x8000_0000_0000_0000_0000_0000_0000_0000
        } else {
            (-n) as u128
        };
        "-".to_owned().concat(decimal_text(magnitude).as_str())
    } else {
        decimal_text(n as u128)
    }
}

/// A finite map from texts to values.
pub struct TextMap<V> {
    entries: Vec<(String, V)>,
}

/// The map that a sequence of entries stands for. The first entry for a text
/// counts.
spec fn of_entries<V>(entries: Seq<(String, V)>) -> Map<Seq<char>, V>
    decreases entries.len(),
{
    if entries.len() == 0 {
        Map::empty()
    } else {
        of_entries(entries.drop_first()).insert(entries[0].0@, entries[0].1)
    }
}

/// The position of the first entry for a text decides what the map holds.
proof fn lemma_found<V>(entries: Seq<(String, V)>, i: int)
    requires
        0 <= i < entries.len(),
        forall|j: int| 0 <= j < i ==> (#[trigger] entries[j]).0@ != entries[i].0@,
    ensures
        of_entries(entries).dom().contains(entries[i].0@),
        of_entries(entries)[entries[i].0@] == entries[i].1,
    decreases entries.len(),
{
    if i > 0 {
        let rest = entries.drop_first();
        assert(entries[0].0@ != entries[i].0@);
        assert forall|j: int| 0 <= j < i - 1 implies (#[trigger] rest[j]).0@ != rest[i - 1].0@ by {
            assert(entries[j + 1].0@ != entries[i].0@);
        }
        lemma_found(rest, i - 1);
    }
}

/// A text that no entry has is not in the map.
proof fn lemma_not_found<V>(entries: Seq<(String, V)>, k: Seq<char>)
    requires
        forall|j: int| 0 <= j < entries.len() ==> (#[trigger] entries[j]).0@ != k,
    ensures
        !of_entries(entries).dom().contains(k),
    decreases entries.len(),
{
    if entries.len() > 0 {
        let rest = entries.drop_first();
        assert(entries[0].0@ != k);
        assert forall|j: int| 0 <= j < rest.len() implies (#[trigger] rest[j]).0@ != k by {
            assert(entries[j + 1].0@ != k);
        }
        lemma_not_found(rest, k);
    }
}

/// The texts in the map are those of the entries.
proof fn lemma_domain<V>(entries: Seq<(String, V)>, k: Seq<char>)
    ensures
        of_entries(entries).dom().contains(k) <==> exists|j: int|
            0 <= j < entries.len() && (#[trigger] entries[j]).0@ == k,
    decreases entries.len(),
{
    if entries.len() > 0 {
        let rest = entries.drop_first();
        lemma_domain(rest, k);
        if exists|j: int| 0 <= j < rest.len() && (#[trigger] rest[j]).0@ == k {
            let j = choose|j: int| 0 <= j < rest.len() && (#[trigger] rest[j]).0@ == k;
            assert(entries[j + 1].0@ == k);
        }
        if exists|j: int| 0 <= j < entries.len() && (#[trigger] entries[j]).0@ == k {
            let j = choose|j: int| 0 <= j < entries.len() && (#[trigger] entries[j]).0@ == k;
            if j > 0 {
                assert(rest[j - 1].0@ == k);
            }
        }
    }
}

/// Replacing the first entry for a text, or adding an entry at the end for a
/// text that has none, inserts into the map.
proof fn lemma_update<V>(
    before: Seq<(String, V)>,
    after: Seq<(String, V)>,
    i: int,
    k: String,
    v: V,
)
    requires
        0 <= i <= before.len(),
        forall|j: int| 0 <= j < i ==> (#[trigger] before[j]).0@ != k@,
        i < before.len() ==> before[i].0@ == k@ && after == before.update(i, (k, v)),
        i == before.len() ==> after == before.push((k, v)),
    ensures
        of_entries(after) == of_entries(before).insert(k@, v),
    decreases before.len(),
{
    if before.len() == 0 {
        assert(after.drop_first() =~= before);
        assert(of_entries(after) =~= of_entries(before).insert(k@, v));
    } else if i == 0 {
        assert(after.drop_first() =~= before.drop_first());
        assert(of_entries(after) =~= of_entries(before).insert(k@, v));
    } else {
        let rest = before.drop_first();
        assert(before[0].0@ != k@);
        assert forall|j: int| 0 <= j < i - 1 implies (#[trigger] rest[j]).0@ != k@ by {
            assert(before[j + 1].0@ != k@);
        }
        assert(i < before.len() ==> after.drop_first() =~= rest.update(i - 1, (k, v)));
        assert(i == before.len() ==> after.drop_first() =~= rest.push((k, v)));
        lemma_update(rest, after.drop_first(), i - 1, k, v);
        assert(of_entries(after) =~= of_entries(before).insert(k@, v));
    }
}

impl<V> View for TextMap<V> {
    type V = Map<Seq<char>, V>;

    closed spec fn view(&self) -> Map<Seq<char>, V> {
        of_entries(self.entries@)
    }
}

impl<V> TextMap<V> {
    pub fn new() -> (r: Self)
        ensures
            r@ == Map::<Seq<char>, V>::empty(),
    {
        TextMap { entries: Vec::new() }
    }

    fn find(&self, k: &str) -> (i: usize)
        ensures
            i <= self.entries@.len(),
            forall|j: int| 0 <= j < i ==> (#[trigger] self.entries@[j]).0@ != k@,
            i < self.entries@.len() ==> self.entries@[i as int].0@ == k@,
    {
        let mut i: usize = 0;
        while i < self.entries.len()
            invariant
                i <= self.entries@.len(),
                forall|j: int| 0 <= j < i ==> (#[trigger] self.entries@[j]).0@ != k@,
            decreases self.entries@.len() - i,
        {
            if same_text(self.entries[i].0.as_str(), k) {
                return i;
            }
            i = i + 1;
        }
        i
    }

    pub fn get(&self, k: &str) -> (r: Option<&V>)
        ensures
            match r {
                Some(v) => self@.dom().contains(k@) && self@[k@] == *v,
                None => !self@.dom().contains(k@),
            },
    {
        let i = self.find(k);
        if i < self.entries.len() {
            proof {
                lemma_found(self.entries@, i as int);
            }
            Some(&self.entries[i].1)
        } else {
            proof {
                lemma_not_found(self.entries@, k@);
            }
            None
        }
    }

    pub fn insert(&mut self, k: String, v: V)
        ensures
            final(self)@ == old(self)@.insert(k@, v),
    {
        let i = self.find(k.as_str());
        let ghost before = self.entries@;
        let ghost key = k;
        if i < self.entries.len() {
            self.entries.set(i, (k, v));
        } else {
            self.entries.push((k, v));
        }
        proof {
            lemma_update(before, self.entries@, i as int, key, v);
        }
    }

    /// The texts that the map holds something for.
    pub fn keys(&self) -> (r: Vec<String>)
        ensures
            forall|k: Seq<char>| #[trigger] views(r@).contains(k) <==> self@.dom().contains(k),
    {
        let mut keys: Vec<String> = Vec::new();
        let mut i: usize = 0;
        while i < self.entries.len()
            invariant
                i <= self.entries@.len(),
                keys@.len() == i,
                forall|j: int| 0 <= j < i ==> (#[trigger] keys@[j])@ == self.entries@[j].0@,
            decreases self.entries@.len() - i,
        {
            keys.push(self.entries[i].0.clone());
            i = i + 1;
        }
        assert forall|k: Seq<char>| #[trigger] views(keys@).contains(k) <==> self@.dom().contains(
            k,
        ) by {
            lemma_domain(self.entries@, k);
            if views(keys@).contains(k) {
                let j = choose|j: int| 0 <= j < keys@.len() && views(keys@)[j] == k;
                assert(keys@[j]@ == self.entries@[j].0@);
            }
            if self@.dom().contains(k) {
                let j = choose|j: int|
                    0 <= j < self.entries@.len() && (#[trigger] self.entries@[j]).0@ == k;
                assert(keys@[j]@ == k);
                assert(views(keys@)[j] == k);
            }
        }
        keys
    }
}

} // verus!
