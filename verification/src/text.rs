//! Reading text: characters of a string, splitting on spaces, and unsigned
//! decimal numbers as `str::parse` reads them.
use vstd::prelude::*;
use vstd::string::StrSliceExecFns;

verus! {

/// The pieces of `s` between occurrences of `sep`, as `str::split` gives
/// them: consecutive separators give empty pieces, and there is always at
/// least one piece.
pub open spec fn split_on(s: Seq<char>, sep: char) -> Seq<Seq<char>>
    decreases s.len(),
{
    if s.len() == 0 {
        seq![Seq::empty()]
    } else {
        let p = split_on(s.drop_last(), sep);
        if s.last() == sep {
            p.push(Seq::empty())
        } else {
            p.update(p.len() - 1, p.last().push(s.last()))
        }
    }
}

/// `split_on` never gives an empty list.
pub proof fn lemma_split_nonempty(s: Seq<char>, sep: char)
    ensures
        split_on(s, sep).len() >= 1,
    decreases s.len(),
{
    if s.len() > 0 {
        lemma_split_nonempty(s.drop_last(), sep);
    }
}

/// The value of a decimal digit character.
pub open spec fn digit_of(c: char) -> int {
    c as int - 48
}

/// The character is an ASCII decimal digit.
pub open spec fn is_digit(c: char) -> bool {
    '0' <= c <= '9'
}

/// The value of a string of decimal digits.
pub open spec fn decimal_value(s: Seq<char>) -> int
    decreases s.len(),
{
    if s.len() == 0 {
        0
    } else {
        10 * decimal_value(s.drop_last()) + digit_of(s.last())
    }
}

/// The digits of a number text: without its leading `+`, if it has one.
pub open spec fn unsigned_digits(s: Seq<char>) -> Seq<char> {
    if s.len() > 0 && s[0] == '+' {
        s.drop_first()
    } else {
        s
    }
}

/// Every character is an ASCII digit.
pub open spec fn all_digits(s: Seq<char>) -> bool
    decreases s.len(),
{
    if s.len() == 0 {
        true
    } else {
        is_digit(s.last()) && all_digits(s.drop_last())
    }
}

/// `all_digits` says that each character is a digit.
pub proof fn lemma_all_digits(s: Seq<char>)
    ensures
        all_digits(s) == (forall|i: int| 0 <= i < s.len() ==> is_digit(#[trigger] s[i])),
    decreases s.len(),
{
    if s.len() > 0 {
        lemma_all_digits(s.drop_last());
        if all_digits(s) {
            assert forall|i: int| 0 <= i < s.len() implies is_digit(#[trigger] s[i]) by {
                if i < s.len() - 1 {
                    assert(s.drop_last()[i] == s[i]);
                }
            }
        } else if is_digit(s.last()) {
            let j = choose|j: int| 0 <= j < s.drop_last().len() && !is_digit(#[trigger] s.drop_last()[j]);
            assert(s[j] == s.drop_last()[j]);
        }
    }
}

/// What `str::parse` gives for an unsigned integer type whose largest value
/// is `max`: an optional `+` followed by at least one ASCII digit, with a
/// value no larger than `max`.
pub open spec fn parse_unsigned_spec(s: Seq<char>, max: int) -> Option<int> {
    let d = unsigned_digits(s);
    if d.len() > 0 && all_digits(d) && decimal_value(d) <= max {
        Some(decimal_value(d))
    } else {
        None
    }
}

/// Decimal values are not negative.
pub proof fn lemma_decimal_nonneg(s: Seq<char>)
    requires
        forall|i: int| 0 <= i < s.len() ==> is_digit(#[trigger] s[i]),
    ensures
        decimal_value(s) >= 0,
    decreases s.len(),
{
    if s.len() > 0 {
        lemma_decimal_nonneg(s.drop_last());
    }
}

/// A longer prefix of a digit string has a value at least as large.
pub proof fn lemma_decimal_prefix_mono(s: Seq<char>, i: int, j: int)
    requires
        0 <= i <= j <= s.len(),
        forall|k: int| 0 <= k < s.len() ==> is_digit(#[trigger] s[k]),
    ensures
        decimal_value(s.take(i)) <= decimal_value(s.take(j)),
    decreases j - i,
{
    if i < j {
        lemma_decimal_prefix_mono(s, i, j - 1);
        assert(s.take(j).drop_last() =~= s.take(j - 1));
        lemma_decimal_nonneg(s.take(j - 1));
    }
}

/// The characters of a string, in order.
pub fn str_chars(s: &str) -> (v: Vec<char>)
    ensures
        v@ == s@,
{
    let n = s.unicode_len();
    let mut v: Vec<char> = Vec::new();
    let mut i: usize = 0;
    while i < n
        invariant
            n == s@.len(),
            i <= n,
            v@ == s@.take(i as int),
        decreases n - i,
    {
        v.push(s.get_char(i));
        i = i + 1;
        assert(v@ =~= s@.take(i as int));
    }
    assert(s@.take(n as int) =~= s@);
    v
}

/// The pieces of `s` between spaces, as `str::split(" ")` gives them.
pub fn split_spaces(s: &Vec<char>) -> (parts: Vec<Vec<char>>)
    ensures
        parts@.len() == split_on(s@, ' ').len(),
        forall|i: int| 0 <= i < parts@.len() ==> #[trigger] parts@[i]@ == split_on(s@, ' ')[i],
{
    let mut parts: Vec<Vec<char>> = Vec::new();
    let mut cur: Vec<char> = Vec::new();
    let mut i: usize = 0;
    while i < s.len()
        invariant
            i <= s.len(),
            parts@.len() + 1 == split_on(s@.take(i as int), ' ').len(),
            forall|k: int| 0 <= k < parts@.len() ==> #[trigger] parts@[k]@ == split_on(s@.take(i as int), ' ')[k],
            cur@ == split_on(s@.take(i as int), ' ').last(),
        decreases s.len() - i,
    {
        let ghost before = s@.take(i as int);
        proof {
            lemma_split_nonempty(before, ' ');
        }
        let c = s[i];
        assert(s@.take(i as int + 1).drop_last() =~= before);
        if c == ' ' {
            let done = cur;
            parts.push(done);
            cur = Vec::new();
            assert(cur@ =~= Seq::<char>::empty());
        } else {
            cur.push(c);
        }
        i = i + 1;
    }
    assert(s@.take(s.len() as int) =~= s@);
    proof {
        lemma_split_nonempty(s@, ' ');
    }
    parts.push(cur);
    parts
}

/// Reads an unsigned decimal number no larger than `max` from `s`, as
/// `str::parse` does for an unsigned type whose largest value is `max`.
pub fn parse_unsigned(s: &Vec<char>, max: u128) -> (r: Option<u128>)
    ensures
        r == (match parse_unsigned_spec(s@, max as int) {
            Some(v) => Some(v as u128),
            None => None,
        }),
        r is Some ==> r.unwrap() <= max,
        r is Some ==> parse_unsigned_spec(s@, max as int) == Some(r.unwrap() as int),
        r is None ==> parse_unsigned_spec(s@, max as int) is None,
{
    let ghost d = unsigned_digits(s@);
    proof {
        lemma_all_digits(d);
    }
    let start: usize = if s.len() > 0 && s[0] == '+' {
        1
    } else {
        0
    };
    assert(d =~= s@.skip(start as int));
    if start >= s.len() {
        return None;
    }
    let mut v: u128 = 0;
    let mut i: usize = start;
    while i < s.len()
        invariant
            start <= i <= s.len(),
            start < s.len(),
            d == unsigned_digits(s@),
            all_digits(d) == (forall|k: int| 0 <= k < d.len() ==> is_digit(#[trigger] d[k])),
            d =~= s@.skip(start as int),
            forall|k: int| 0 <= k < i - start ==> is_digit(#[trigger] d[k]),
            v == decimal_value(d.take(i - start)),
            v <= max,
        decreases s.len() - i,
    {
        let c = s[i];
        assert(d[i - start] == c);
        if !('0' <= c && c <= '9') {
            assert(!is_digit(d[i - start]));
            assert(!(forall|k: int| 0 <= k < d.len() ==> is_digit(#[trigger] d[k])));
            assert(parse_unsigned_spec(s@, max as int) is None);
            return None;
        }
        let digit: u128 = (c as u32 - 48) as u128;
        assert(d.take(i - start + 1).drop_last() =~= d.take(i - start));
        if digit > max || v > (max - digit) / 10 {
            proof {
                assert(decimal_value(d.take(i - start + 1)) == 10 * v + digit);
                assert(10 * v + digit > max) by (nonlinear_arith)
                    requires
                        digit > max || v > (max - digit) / 10,
                        digit >= 0,
                        v >= 0,
                ;
                if forall|k: int| 0 <= k < d.len() ==> is_digit(#[trigger] d[k]) {
                    lemma_decimal_prefix_mono(d, i - start + 1, d.len() as int);
                    assert(d.take(d.len() as int) =~= d);
                    assert(decimal_value(d) > max);
                }
                assert(parse_unsigned_spec(s@, max as int) is None);
            }
            return None;
        }
        proof {
            assert(10 * v + digit <= max) by (nonlinear_arith)
                requires
                    v <= (max - digit) / 10,
                    digit <= max,
                    v >= 0,
                    digit >= 0,
            ;
        }
        v = v * 10 + digit;
        i = i + 1;
    }
    assert(d.take(d.len() as int) =~= d);
    Some(v)
}

/// Splitting text that ends in a separator and a separator-free piece adds
/// that piece to the split of the text before it.
pub proof fn lemma_split_append(a: Seq<char>, b: Seq<char>, sep: char)
    requires
        forall|i: int| 0 <= i < b.len() ==> b[i] != sep,
    ensures
        split_on(a + seq![sep] + b, sep) == split_on(a, sep).push(b),
    decreases b.len(),
{
    let x = a + seq![sep] + b;
    if b.len() == 0 {
        assert(x.drop_last() =~= a);
        assert(x.last() == sep);
        assert(b =~= Seq::<char>::empty());
    } else {
        lemma_split_append(a, b.drop_last(), sep);
        assert(x.drop_last() =~= a + seq![sep] + b.drop_last());
        assert(x.last() == b.last());
        assert(b.drop_last().push(b.last()) =~= b);
        assert(split_on(x, sep) =~= split_on(a, sep).push(b));
    }
}
/// Text without a separator splits into itself.
pub proof fn lemma_split_single(b: Seq<char>, sep: char)
    requires
        forall|i: int| 0 <= i < b.len() ==> b[i] != sep,
    ensures
        split_on(b, sep) == seq![b],
    decreases b.len(),
{
    if b.len() > 0 {
        lemma_split_single(b.drop_last(), sep);
        assert(b.drop_last().push(b.last()) =~= b);
        assert(split_on(b, sep) =~= seq![b]);
    } else {
        assert(b =~= Seq::<char>::empty());
    }
}

/// Tells whether two strings hold the same characters.
pub fn str_eq(a: &str, b: &str) -> (r: bool)
    ensures
        r == (a@ == b@),
{
    let n = a.unicode_len();
    if n != b.unicode_len() {
        return false;
    }
    let mut i: usize = 0;
    while i < n
        invariant
            n == a@.len(),
            n == b@.len(),
            i <= n,
            forall|k: int| 0 <= k < i ==> a@[k] == b@[k],
        decreases n - i,
    {
        if a.get_char(i) != b.get_char(i) {
            return false;
        }
        i = i + 1;
    }
    assert(a@ =~= b@);
    true
}

} // verus!
