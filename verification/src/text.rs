//! Character-level helpers shared by the parsers of this crate: splitting on
//! a separator, decimal numbers, and a lexicographic comparison.

use vstd::prelude::*;
use vstd::string::*;

verus! {

/// Why a decimal number could not be read.
#[derive(Clone, Copy, Debug, PartialEq, Eq, Structural)]
pub enum IntError {
    /// The text is empty.
    Empty,
    /// A character is no decimal digit, or a sign stands alone.
    InvalidDigit,
    /// The number does not fit in 32 bits.
    Overflow,
}

/// How one text stands to another in lexicographic order.
#[derive(Clone, Copy, Debug, PartialEq, Eq, Structural)]
pub enum Order {
    Less,
    Equal,
    Greater,
}

/// The texts held by a sequence of strings.
pub open spec fn texts(v: Seq<String>) -> Seq<Seq<char>> {
    Seq::new(v.len(), |k: int| v[k]@)
}

/// Index of the first `c` in `s`, or the length of `s` where there is none.
pub open spec fn first_index<A>(s: Seq<A>, c: A) -> int
    decreases s.len(),
{
    if s.len() == 0 || s[0] == c {
        0
    } else {
        1 + first_index(s.drop_first(), c)
    }
}

/// The pieces of `s` between occurrences of `c`; there is always at least one.
pub open spec fn split_spec(s: Seq<char>, c: char) -> Seq<Seq<char>>
    decreases s.len(),
{
    let i = first_index(s, c);
    if i < 0 || i >= s.len() {
        seq![s]
    } else {
        seq![s.take(i)] + split_spec(s.skip(i + 1), c)
    }
}

/// Whether `c` is a decimal digit.
pub open spec fn is_digit(c: char) -> bool {
    '0' <= c && c <= '9'
}

/// The number that the digit `c` denotes.
pub open spec fn digit_value(c: char) -> nat {
    (c as u32 - '0' as u32) as nat
}

/// The number that a run of decimal digits denotes.
pub open spec fn decimal_value(s: Seq<char>) -> nat
    decreases s.len(),
{
    if s.len() == 0 {
        0
    } else {
        decimal_value(s.drop_last()) * 10 + digit_value(s.last())
    }
}

/// Length of the longest prefix of `s` made of decimal digits.
pub open spec fn leading_digits(s: Seq<char>) -> int
    decreases s.len(),
{
    if s.len() == 0 || !is_digit(s[0]) {
        0
    } else {
        1 + leading_digits(s.drop_first())
    }
}

/// What `s` denotes as an unsigned 32-bit decimal number: an optional `+`,
/// then one or more digits and nothing else.
pub open spec fn parse_u32_spec(s: Seq<char>) -> Result<u32, IntError> {
    if s.len() == 0 {
        Err(IntError::Empty)
    } else {
        let body = if s[0] == '+' {
            s.skip(1)
        } else {
            s
        };
        let k = leading_digits(body);
        if body.len() == 0 {
            Err(IntError::InvalidDigit)
        } else if decimal_value(body.take(k)) > u32::MAX {
            Err(IntError::Overflow)
        } else if k < body.len() {
            Err(IntError::InvalidDigit)
        } else {
            Ok(decimal_value(body) as u32)
        }
    }
}

/// The digit that denotes `d`, a number below ten.
pub open spec fn digit_char(d: nat) -> char {
    if d == 0 {
        '0'
    } else if d == 1 {
        '1'
    } else if d == 2 {
        '2'
    } else if d == 3 {
        '3'
    } else if d == 4 {
        '4'
    } else if d == 5 {
        '5'
    } else if d == 6 {
        '6'
    } else if d == 7 {
        '7'
    } else if d == 8 {
        '8'
    } else {
        '9'
    }
}

/// The decimal digits of `n`, without leading zeros.
pub open spec fn decimal_text(n: nat) -> Seq<char>
    decreases n,
{
    if n < 10 {
        seq![digit_char(n)]
    } else {
        decimal_text(n / 10).push(digit_char(n % 10))
    }
}

/// Lexicographic order of two texts by character.
pub open spec fn compare_spec(a: Seq<char>, b: Seq<char>) -> Order
    decreases a.len(),
{
    if a.len() == 0 && b.len() == 0 {
        Order::Equal
    } else if a.len() == 0 {
        Order::Less
    } else if b.len() == 0 {
        Order::Greater
    } else if (a[0] as u32) < (b[0] as u32) {
        Order::Less
    } else if (a[0] as u32) > (b[0] as u32) {
        Order::Greater
    } else {
        compare_spec(a.drop_first(), b.drop_first())
    }
}

/// What `first_index` returns: a position in `s` or its length, with no `c`
/// before it and, where it is a position, `c` at it.
pub proof fn lemma_first_index<A>(s: Seq<A>, c: A)
    ensures
        0 <= first_index(s, c) <= s.len(),
        forall|j: int| 0 <= j < first_index(s, c) ==> s[j] != c,
        first_index(s, c) < s.len() ==> s[first_index(s, c)] == c,
    decreases s.len(),
{
    if s.len() == 0 || s[0] == c {
    } else {
        let t = s.drop_first();
        lemma_first_index(t, c);
        assert forall|j: int| 0 <= j < first_index(s, c) implies s[j] != c by {
            if j > 0 {
                assert(s[j] == t[j - 1]);
            }
        }
        assert(s[first_index(s, c)] == t[first_index(t, c)] || first_index(s, c) >= s.len());
    }
}

/// The first occurrence is where a `c` stands that no `c` precedes.
pub proof fn lemma_first_index_is<A>(s: Seq<A>, c: A, i: int)
    requires
        0 <= i <= s.len(),
        forall|j: int| 0 <= j < i ==> s[j] != c,
        i < s.len() ==> s[i] == c,
    ensures
        first_index(s, c) == i,
{
    lemma_first_index(s, c);
    let k = first_index(s, c);
    if k < i {
        assert(s[k] == c);
    } else if k > i {
        assert(s[i] != c);
    }
}

/// There is always a first piece: what stands before the first `c`.
pub proof fn lemma_split_nonempty(s: Seq<char>, c: char)
    ensures
        split_spec(s, c).len() >= 1,
        split_spec(s, c)[0] == s.take(first_index(s, c)),
{
    lemma_first_index(s, c);
    let i = first_index(s, c);
    if i >= s.len() {
        assert(s.take(i) =~= s);
    }
}

/// What `leading_digits` returns: digits stand before it and none at it.
pub proof fn lemma_leading_digits(s: Seq<char>)
    ensures
        0 <= leading_digits(s) <= s.len(),
        forall|j: int| 0 <= j < leading_digits(s) ==> is_digit(s[j]),
        leading_digits(s) < s.len() ==> !is_digit(s[leading_digits(s)]),
    decreases s.len(),
{
    if s.len() == 0 || !is_digit(s[0]) {
    } else {
        let t = s.drop_first();
        lemma_leading_digits(t);
        assert forall|j: int| 0 <= j < leading_digits(s) implies is_digit(s[j]) by {
            if j > 0 {
                assert(s[j] == t[j - 1]);
            }
        }
        assert(leading_digits(s) >= s.len() || s[leading_digits(s)] == t[leading_digits(t)]);
    }
}

/// The digits end where a character stands that is none, or the text ends.
pub proof fn lemma_leading_digits_is(s: Seq<char>, i: int)
    requires
        0 <= i <= s.len(),
        forall|j: int| 0 <= j < i ==> is_digit(s[j]),
        i < s.len() ==> !is_digit(s[i]),
    ensures
        leading_digits(s) == i,
{
    lemma_leading_digits(s);
    let k = leading_digits(s);
    if k < i {
        assert(is_digit(s[k]));
    } else if k > i {
        assert(is_digit(s[i]));
    }
}

/// A longer prefix denotes no smaller number.
pub proof fn lemma_decimal_value_grows(s: Seq<char>, a: int, b: int)
    requires
        0 <= a <= b <= s.len(),
    ensures
        decimal_value(s.take(a)) <= decimal_value(s.take(b)),
    decreases b - a,
{
    if a < b {
        lemma_decimal_value_grows(s, a, b - 1);
        assert(s.take(b).drop_last() =~= s.take(b - 1));
    }
}

/// The characters of `s`, in order.
pub fn chars_of(s: &str) -> (v: Vec<char>)
    ensures
        v@ == s@,
{
    let n = s.unicode_len();
    let mut v: Vec<char> = Vec::new();
    let mut i: usize = 0;
    while i < n
        invariant
            n == s@.len(),
            i <= n,
            v@ == s@.subrange(0, i as int),
        decreases n - i,
    {
        let c = s.get_char(i);
        v.push(c);
        i = i + 1;
        assert(v@ =~= s@.subrange(0, i as int));
    }
    assert(s@.subrange(0, n as int) =~= s@);
    v
}

/// Whether two texts hold the same characters.
pub fn same_text(a: &str, b: &str) -> (r: bool)
    ensures
        r == (a@ == b@),
{
    let x = String::from_str(a);
    let y = String::from_str(b);
    x == y
}

/// Splits `s` at every `c`, as `str::split` does with a character.
pub fn split(s: &str, c: char) -> (parts: Vec<String>)
    ensures
        texts(parts@) == split_spec(s@, c),
{
    let chars = chars_of(s);
    let n = chars.len();
    let mut parts: Vec<String> = Vec::new();
    let mut start: usize = 0;
    let mut i: usize = 0;
    proof {
        assert(s@.skip(0) =~= s@);
        assert(texts(parts@) + split_spec(s@, c) =~= split_spec(s@, c));
    }
    while i < n
        invariant
            chars@ == s@,
            n == s@.len(),
            start <= i <= n,
            forall|j: int| start <= j < i ==> s@[j] != c,
            split_spec(s@, c) == texts(parts@) + split_spec(s@.skip(start as int), c),
        decreases n - i,
    {
        if chars[i] == c {
            let piece = String::from_str(s.substring_char(start, i));
            proof {
                let rest = s@.skip(start as int);
                lemma_first_index_is(rest, c, i - start);
                assert(rest.take(i - start) =~= s@.subrange(start as int, i as int));
                assert(rest.skip(i - start + 1) =~= s@.skip(i + 1));
                assert(texts(parts@.push(piece)) =~= texts(parts@) + seq![piece@]);
            }
            parts.push(piece);
            start = i + 1;
        }
        i = i + 1;
    }
    let piece = String::from_str(s.substring_char(start, n));
    proof {
        let rest = s@.skip(start as int);
        lemma_first_index_is(rest, c, n - start);
        assert(rest =~= s@.subrange(start as int, n as int));
        assert(texts(parts@.push(piece)) =~= texts(parts@) + seq![piece@]);
    }
    parts.push(piece);
    parts
}

/// Reads an unsigned 32-bit decimal number.
pub fn parse_u32(s: &str) -> (r: Result<u32, IntError>)
    ensures
        r == parse_u32_spec(s@),
{
    let chars = chars_of(s);
    let n = chars.len();
    if n == 0 {
        return Err(IntError::Empty);
    }
    let first: usize = if chars[0] == '+' {
        1
    } else {
        0
    };
    if first == n {
        assert(s@.skip(1).len() == 0);
        return Err(IntError::InvalidDigit);
    }
    let ghost body = s@.skip(first as int);
    proof {
        assert(s@.skip(0) =~= s@);
    }
    let mut acc: u32 = 0;
    let mut i: usize = first;
    assert(body.take(0) =~= Seq::<char>::empty());
    while i < n
        invariant
            chars@ == s@,
            n == s@.len(),
            first <= i <= n,
            first < n,
            body == (if s@[0] == '+' {
                s@.skip(1)
            } else {
                s@
            }),
            body.len() == n - first,
            forall|j: int| 0 <= j < i - first ==> is_digit(body[j]),
            acc == decimal_value(body.take(i - first)),
        decreases n - i,
    {
        let c = chars[i];
        if !(c >= '0' && c <= '9') {
            proof {
                lemma_leading_digits_is(body, i - first);
            }
            return Err(IntError::InvalidDigit);
        }
        let d: u64 = (c as u32 - '0' as u32) as u64;
        let next: u64 = acc as u64 * 10 + d;
        proof {
            assert(body.take(i - first + 1).drop_last() =~= body.take(i - first));
            assert(body.take(i - first + 1).last() == c);
            assert(next == decimal_value(body.take(i - first + 1)));
        }
        if next > u32::MAX as u64 {
            proof {
                lemma_leading_digits(body);
                let k = leading_digits(body);
                if k < i - first + 1 {
                    assert(is_digit(body[k]));
                }
                lemma_decimal_value_grows(body, i - first + 1, k);
            }
            return Err(IntError::Overflow);
        }
        acc = next as u32;
        i = i + 1;
    }
    proof {
        lemma_leading_digits_is(body, n - first);
        assert(body.take(n - first) =~= body);
    }
    Ok(acc)
}

fn digit_str(d: u32) -> (r: &'static str)
    requires
        d < 10,
    ensures
        r@ == seq![digit_char(d as nat)],
{
    proof {
        reveal_strlit("0");
        reveal_strlit("1");
        reveal_strlit("2");
        reveal_strlit("3");
        reveal_strlit("4");
        reveal_strlit("5");
        reveal_strlit("6");
        reveal_strlit("7");
        reveal_strlit("8");
        reveal_strlit("9");
    }
    let r = if d == 0 {
        "0"
    } else if d == 1 {
        "1"
    } else if d == 2 {
        "2"
    } else if d == 3 {
        "3"
    } else if d == 4 {
        "4"
    } else if d == 5 {
        "5"
    } else if d == 6 {
        "6"
    } else if d == 7 {
        "7"
    } else if d == 8 {
        "8"
    } else {
        "9"
    };
    assert(r@ =~= seq![digit_char(d as nat)]);
    r
}

/// Writes `n` in decimal.
pub fn decimal(n: u32) -> (r: String)
    ensures
        r@ == decimal_text(n as nat),
    decreases n,
{
    if n < 10 {
        String::from_str(digit_str(n))
    } else {
        let mut r = decimal(n / 10);
        r.append(digit_str(n % 10));
        assert(r@ =~= decimal_text(n as nat));
        r
    }
}

/// Compares two texts character by character.
pub fn compare(a: &str, b: &str) -> (r: Order)
    ensures
        r == compare_spec(a@, b@),
{
    let x = chars_of(a);
    let y = chars_of(b);
    let mut i: usize = 0;
    proof {
        assert(a@.skip(0) =~= a@);
        assert(b@.skip(0) =~= b@);
    }
    while i < x.len() && i < y.len()
        invariant
            x@ == a@,
            y@ == b@,
            i <= x.len(),
            i <= y.len(),
            compare_spec(a@, b@) == compare_spec(a@.skip(i as int), b@.skip(i as int)),
        decreases x.len() - i,
    {
        let p = x[i] as u32;
        let q = y[i] as u32;
        proof {
            assert(a@.skip(i as int).drop_first() =~= a@.skip(i + 1));
            assert(b@.skip(i as int).drop_first() =~= b@.skip(i + 1));
        }
        if p < q {
            return Order::Less;
        }
        if p > q {
            return Order::Greater;
        }
        i = i + 1;
    }
    if i == x.len() && i == y.len() {
        Order::Equal
    } else if i == x.len() {
        Order::Less
    } else {
        Order::Greater
    }
}

/// Whether `s` ends with `suffix`.
pub open spec fn ends_with_spec(s: Seq<char>, suffix: Seq<char>) -> bool {
    s.len() >= suffix.len() && s.subrange(s.len() - suffix.len(), s.len() as int) == suffix
}

/// Whether `s` ends with `suffix`.
pub fn ends_with(s: &str, suffix: &str) -> (r: bool)
    ensures
        r == ends_with_spec(s@, suffix@),
{
    let x = chars_of(s);
    let y = chars_of(suffix);
    if x.len() < y.len() {
        return false;
    }
    let from = x.len() - y.len();
    let ghost tail = s@.subrange(from as int, s@.len() as int);
    let mut i: usize = 0;
    while i < y.len()
        invariant
            x@ == s@,
            y@ == suffix@,
            from + y.len() == x.len(),
            tail == s@.subrange(from as int, s@.len() as int),
            i <= y.len(),
            forall|j: int| 0 <= j < i ==> tail[j] == suffix@[j],
        decreases y.len() - i,
    {
        if x[from + i] != y[i] {
            assert(tail[i as int] != suffix@[i as int]);
            return false;
        }
        i = i + 1;
    }
    assert(tail =~= suffix@);
    true
}

/// Turning two texts round turns their order round.
pub proof fn lemma_compare_flip(a: Seq<char>, b: Seq<char>)
    ensures
        compare_spec(a, b) == Order::Less <==> compare_spec(b, a) == Order::Greater,
        compare_spec(a, b) == Order::Equal <==> compare_spec(b, a) == Order::Equal,
    decreases a.len(),
{
    if a.len() > 0 && b.len() > 0 && (a[0] as u32) == (b[0] as u32) {
        lemma_compare_flip(a.drop_first(), b.drop_first());
    }
}

/// What comes before a text comes before all that do not come before that
/// text.
pub proof fn lemma_compare_less_trans(a: Seq<char>, b: Seq<char>, c: Seq<char>)
    requires
        compare_spec(a, b) == Order::Less,
        compare_spec(b, c) != Order::Greater,
    ensures
        compare_spec(a, c) == Order::Less,
    decreases a.len(),
{
    if a.len() > 0 && b.len() > 0 && c.len() > 0 && (a[0] as u32) == (b[0] as u32) && (b[0] as u32)
        == (c[0] as u32) {
        lemma_compare_less_trans(a.drop_first(), b.drop_first(), c.drop_first());
    }
}

/// `n` spaces.
pub open spec fn spaces(n: nat) -> Seq<char> {
    Seq::new(n, |i: int| ' ')
}

/// `s` with spaces before it, as many as it lacks to `min` characters.
pub open spec fn fitted(s: Seq<char>, min: nat) -> Seq<char> {
    if s.len() >= min {
        s
    } else {
        spaces((min - s.len()) as nat) + s
    }
}

/// Puts spaces before `s` until it has `min` characters.
pub fn fit(s: &str, min: usize) -> (r: String)
    ensures
        r@ == fitted(s@, min as nat),
{
    let n = s.unicode_len();
    let mut r = String::new();
    if n < min {
        let lack = min - n;
        let mut i: usize = 0;
        proof {
            reveal_strlit(" ");
            assert(" "@ =~= seq![' ']);
            assert(r@ =~= spaces(0));
        }
        while i < lack
            invariant
                i <= lack,
                r@ == spaces(i as nat),
                " "@ == seq![' '],
            decreases lack - i,
        {
            r.append(" ");
            i = i + 1;
            assert(r@ =~= spaces(i as nat));
        }
    }
    r.append(s);
    assert(r@ =~= fitted(s@, min as nat));
    r
}

/// A text without `c` is one piece.
pub proof fn lemma_split_whole(a: Seq<char>, c: char)
    requires
        !a.contains(c),
    ensures
        split_spec(a, c) == seq![a],
{
    lemma_first_index(a, c);
    let i = first_index(a, c);
    if i < a.len() {
        assert(a.contains(a[i]));
    }
}

/// A text is cut at the first `c`: what stands before it is the first
/// piece.
pub proof fn lemma_split_first(a: Seq<char>, c: char, rest: Seq<char>)
    requires
        !a.contains(c),
    ensures
        split_spec(a + seq![c] + rest, c) == seq![a] + split_spec(rest, c),
{
    let s = a + seq![c] + rest;
    assert forall|j: int| 0 <= j < a.len() implies s[j] != c by {
        assert(a.contains(a[j]));
    }
    assert(s[a.len() as int] == c);
    lemma_first_index_is(s, c, a.len() as int);
    assert(s.take(a.len() as int) =~= a);
    assert(s.skip(a.len() as int + 1) =~= rest);
}

/// The digits of a number are digits, and there is at least one.
pub proof fn lemma_decimal_text_digits(n: nat)
    ensures
        decimal_text(n).len() >= 1,
        forall|i: int| 0 <= i < decimal_text(n).len() ==> is_digit(#[trigger] decimal_text(n)[i]),
    decreases n,
{
    if n >= 10 {
        lemma_decimal_text_digits(n / 10);
    }
}

/// The digits of a number denote that number.
pub proof fn lemma_decimal_value_of_text(n: nat)
    ensures
        decimal_value(decimal_text(n)) == n,
    decreases n,
{
    if n < 10 {
        let s = decimal_text(n);
        assert(s.drop_last() =~= Seq::<char>::empty());
        assert(decimal_value(s.drop_last()) == 0);
    } else {
        lemma_decimal_value_of_text(n / 10);
        let s = decimal_text(n);
        assert(s.drop_last() =~= decimal_text(n / 10));
        assert(s.last() == digit_char(n % 10));
    }
}

/// A number that was written in decimal is read back as it was.
pub proof fn lemma_decimal_round_trip(n: u32)
    ensures
        parse_u32_spec(decimal_text(n as nat)) == Ok::<u32, IntError>(n),
{
    let s = decimal_text(n as nat);
    lemma_decimal_text_digits(n as nat);
    lemma_decimal_value_of_text(n as nat);
    assert(is_digit(s[0]));
    lemma_leading_digits_is(s, s.len() as int);
    assert(s.take(s.len() as int) =~= s);
}

} // verus!
