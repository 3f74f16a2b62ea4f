//! Text: equality, ordering, and the decimal renderings that identifiers,
//! stamps and messages are built from.

use vstd::prelude::*;
use vstd::string::*;

verus! {

/// Whether two texts hold the same characters.
pub fn same(a: &str, b: &str) -> (r: bool)
    ensures
        r == (a@ == b@),
{
    let x = a.as_bytes();
    let y = b.as_bytes();
    proof {
        vstd::utf8::encode_utf8_decode_utf8(a@);
        vstd::utf8::encode_utf8_decode_utf8(b@);
    }
    if x.len() != y.len() {
        return false;
    }
    let mut i: usize = 0;
    while i < x.len()
        invariant
            i <= x.len(),
            x@.len() == y@.len(),
            x@ == vstd::utf8::encode_utf8(a@),
            y@ == vstd::utf8::encode_utf8(b@),
            forall|j: int| 0 <= j < i ==> x@[j] == y@[j],
        decreases x.len() - i,
    {
        if x[i] != y[i] {
            return false;
        }
        i += 1;
    }
    assert(x@ =~= y@);
    true
}

/// The characters of `s`, one by one.
pub fn chars_of(s: &str) -> (r: Vec<char>)
    ensures
        r@ == s@,
{
    let mut out: Vec<char> = Vec::new();
    let n = s.unicode_len();
    let mut it = s.chars();
    let mut i: usize = 0;
    assert(s@.skip(0) =~= s@);
    while i < n
        invariant
            i <= n,
            n == s@.len(),
            out@ == s@.take(i as int),
            vstd::std_specs::iter::IteratorSpec::remaining(&it) == s@.skip(i as int),
        decreases n - i,
    {
        match it.next() {
            Some(c) => {
                assert(c == s@[i as int]);
                out.push(c);
                assert(s@.take(i + 1) =~= s@.take(i as int).push(c));
                assert(s@.skip(i as int).drop_first() =~= s@.skip(i + 1));
            },
            None => {
                assert(false);
            },
        }
        i += 1;
    }
    assert(s@.take(n as int) =~= s@);
    out
}

/// `a` sorts before `b`: at the first place where they part, `a` ends or holds
/// the smaller character.
pub open spec fn lex_lt(a: Seq<char>, b: Seq<char>) -> bool {
    exists|k: int| #[trigger] parts_at(a, b, k)
}

/// `a` and `b` agree before `k`, and at `k` the text `a` is the smaller.
pub open spec fn parts_at(a: Seq<char>, b: Seq<char>, k: int) -> bool {
    &&& 0 <= k <= a.len()
    &&& k < b.len()
    &&& forall|j: int| 0 <= j < k ==> a[j] == b[j]
    &&& k < a.len() ==> (a[k] as int) < (b[k] as int)
}

/// `a` sorts no later than `b`.
pub open spec fn lex_le(a: Seq<char>, b: Seq<char>) -> bool {
    !lex_lt(b, a)
}

fn code(c: char) -> (r: u32)
    ensures
        r as int == c as int,
{
    c as u32
}

/// Whether `a` sorts before `b`, by character code.
pub fn sorts_before(a: &str, b: &str) -> (r: bool)
    ensures
        r == lex_lt(a@, b@),
{
    let x = chars_of(a);
    let y = chars_of(b);
    let mut k: usize = 0;
    while k < x.len() && k < y.len()
        invariant
            k <= x@.len(),
            k <= y@.len(),
            x@ == a@,
            y@ == b@,
            forall|j: int| 0 <= j < k ==> a@[j] == b@[j],
        decreases x.len() - k,
    {
        let c: u32 = code(x[k]);
        let d: u32 = code(y[k]);
        if c < d {
            assert(parts_at(a@, b@, k as int));
            return true;
        }
        if c > d {
            assert forall|m: int| !#[trigger] parts_at(a@, b@, m) by {
                if parts_at(a@, b@, m) {
                    if m > k {
                        assert(a@[k as int] == b@[k as int]);
                    }
                }
            }
            return false;
        }
        k += 1;
    }
    if k < y.len() {
        assert(parts_at(a@, b@, k as int));
        true
    } else {
        assert forall|m: int| !#[trigger] parts_at(a@, b@, m) by {
            if parts_at(a@, b@, m) {
                assert(a@[m] == b@[m]);
            }
        }
        false
    }
}

/// No text sorts before itself.
pub proof fn lemma_lex_irreflexive(a: Seq<char>)
    ensures
        !lex_lt(a, a),
{
}

/// The order is transitive.
pub proof fn lemma_lex_transitive(a: Seq<char>, b: Seq<char>, c: Seq<char>)
    requires
        lex_lt(a, b),
        lex_lt(b, c),
    ensures
        lex_lt(a, c),
{
    let k = choose|k: int| #[trigger] parts_at(a, b, k);
    let m = choose|m: int| #[trigger] parts_at(b, c, m);
    if k <= m {
        assert(parts_at(a, c, k));
    } else {
        assert(parts_at(a, c, m));
    }
}

/// Two different texts are ordered one way or the other.
pub proof fn lemma_lex_total(a: Seq<char>, b: Seq<char>)
    ensures
        lex_lt(a, b) || lex_lt(b, a) || a == b,
{
    lemma_lex_total_from(a, b, 0);
}

proof fn lemma_lex_total_from(a: Seq<char>, b: Seq<char>, k: int)
    requires
        0 <= k <= a.len(),
        k <= b.len(),
        forall|j: int| 0 <= j < k ==> a[j] == b[j],
    ensures
        lex_lt(a, b) || lex_lt(b, a) || a == b,
    decreases a.len() - k,
{
    if k == a.len() {
        if k == b.len() {
            assert(a =~= b);
        } else {
            assert(parts_at(a, b, k));
        }
    } else if k == b.len() {
        assert(parts_at(b, a, k));
    } else if a[k] == b[k] {
        lemma_lex_total_from(a, b, k + 1);
    } else if (a[k] as int) < (b[k] as int) {
        assert(parts_at(a, b, k));
    } else {
        assert(parts_at(b, a, k));
    }
}

/// The order never holds both ways.
pub proof fn lemma_lex_asymmetric(a: Seq<char>, b: Seq<char>)
    requires
        lex_lt(a, b),
    ensures
        !lex_lt(b, a),
{
    if lex_lt(b, a) {
        lemma_lex_transitive(a, b, a);
    }
}

/// The decimal digit of value `d`.
pub open spec fn digit(d: nat) -> char {
    (48 + d) as char
}

/// The decimal digits of `n`, most significant first, without leading zeros.
pub open spec fn digits(n: nat) -> Seq<char>
    decreases n,
{
    if n < 10 {
        seq![digit(n)]
    } else {
        digits(n / 10).push(digit(n % 10))
    }
}

/// The decimal rendering of an integer.
pub open spec fn dec(i: int) -> Seq<char> {
    if i < 0 {
        "-"@ + digits((-i) as nat)
    } else {
        digits(i as nat)
    }
}

/// `n` zeros.
pub open spec fn zeros(n: nat) -> Seq<char> {
    Seq::new(n, |i: int| '0')
}

/// The digits of `n`, filled up with zeros on the left to at least `width`.
pub open spec fn padded(n: nat, width: nat) -> Seq<char> {
    let d = digits(n);
    if d.len() < width {
        zeros((width - d.len()) as nat) + d
    } else {
        d
    }
}

fn digit_text(d: u64) -> (r: &'static str)
    requires
        d < 10,
    ensures
        r@ == seq![digit(d as nat)],
{
    proof {
        reveal_strlit("0");
        reveal_strlit("1");
        reveal_strlit("2");
        reveal_strlit("3");
        reveal_strlit("4");
        reveal_strlit("5");
        reveal_strlit("6");
        reveal_strlit("7");
        reveal_strlit("8");
        reveal_strlit("9");
        assert("0"@ =~= seq!['0']);
        assert("1"@ =~= seq!['1']);
        assert("2"@ =~= seq!['2']);
        assert("3"@ =~= seq!['3']);
        assert("4"@ =~= seq!['4']);
        assert("5"@ =~= seq!['5']);
        assert("6"@ =~= seq!['6']);
        assert("7"@ =~= seq!['7']);
        assert("8"@ =~= seq!['8']);
        assert("9"@ =~= seq!['9']);
    }
    if d == 0 {
        "0"
    } else if d == 1 {
        "1"
    } else if d == 2 {
        "2"
    } else if d == 3 {
        "3"
    } else if d == 4 {
        "4"
    } else if d == 5 {
        "5"
    } else if d == 6 {
        "6"
    } else if d == 7 {
        "7"
    } else if d == 8 {
        "8"
    } else {
        "9"
    }
}

/// The decimal rendering of an unsigned number.
pub fn decimal_u64(n: u64) -> (r: String)
    ensures
        r@ == digits(n as nat),
    decreases n,
{
    if n < 10 {
        digit_text(n).to_owned()
    } else {
        let head = decimal_u64(n / 10);
        let r = head.concat(digit_text(n % 10));
        assert(r@ =~= digits(n as nat));
        r
    }
}

/// The decimal rendering of a signed number.
pub fn decimal(i: i64) -> (r: String)
    ensures
        r@ == dec(i as int),
{
    if i < 0 {
        let m: u64 = (-(i as i128)) as u64;
        "-".to_owned().concat(decimal_u64(m).as_str())
    } else {
        decimal_u64(i as u64)
    }
}

/// The decimal rendering of an unsigned number of up to 128 bits.
pub fn decimal_u128(n: u128) -> (r: String)
    ensures
        r@ == digits(n as nat),
    decreases n,
{
    if n < 10 {
        digit_text(n as u64).to_owned()
    } else {
        let head = decimal_u128(n / 10);
        let r = head.concat(digit_text((n % 10) as u64));
        assert(r@ =~= digits(n as nat));
        r
    }
}

/// The decimal rendering of a signed number of up to 128 bits.
pub fn decimal_wide(i: i128) -> (r: String)
    requires
        i > i128::MIN,
    ensures
        r@ == dec(i as int),
{
    if i < 0 {
        "-".to_owned().concat(decimal_u128((-i) as u128).as_str())
    } else {
        decimal_u128(i as u128)
    }
}

/// The decimal rendering of `n`, filled up with zeros to at least `width`.
pub fn padded_decimal(n: u64, width: usize) -> (r: String)
    ensures
        r@ == padded(n as nat, width as nat),
{
    let d = decimal_u64(n);
    let len = d.as_str().unicode_len();
    if len < width {
        let mut out = String::new();
        let mut i: usize = 0;
        proof {
            reveal_strlit("0");
        }
        assert(out@ =~= zeros(0));
        while i < width - len
            invariant
                len < width,
                i <= width - len,
                out@ == zeros(i as nat),
                "0"@.len() == 1,
                "0"@[0] == '0',
            decreases width - len - i,
        {
            out.append("0");
            assert(out@ =~= zeros((i + 1) as nat));
            i += 1;
        }
        out.concat(d.as_str())
    } else {
        d
    }
}

/// The characters `0` to `9`.
pub open spec fn is_digit(c: char) -> bool {
    48 <= c as int <= 57
}

/// Every character is a digit.
pub open spec fn all_digits(s: Seq<char>) -> bool {
    forall|i: int| 0 <= i < s.len() ==> is_digit(#[trigger] s[i])
}

/// The number that a run of digits writes.
pub open spec fn value_of(s: Seq<char>) -> nat
    decreases s.len(),
{
    if s.len() == 0 {
        0
    } else {
        value_of(s.drop_last()) * 10 + (s.last() as nat - 48) as nat
    }
}

/// The unsigned number that a text writes, where it is nothing but digits behind
/// an optional plus sign and its value is in range.
pub open spec fn numeral(s: Seq<char>) -> Option<u64> {
    let d = if s.len() > 0 && s[0] == '+' {
        s.skip(1)
    } else {
        s
    };
    if d.len() > 0 && all_digits(d) && value_of(d) <= u64::MAX {
        Some(value_of(d) as u64)
    } else {
        None
    }
}

/// A prefix of a run of digits writes no larger number.
proof fn lemma_value_grows(s: Seq<char>, i: int)
    requires
        0 <= i <= s.len(),
        all_digits(s),
    ensures
        value_of(s.take(i)) <= value_of(s),
    decreases s.len() - i,
{
    if i == s.len() {
        assert(s.take(i) =~= s);
    } else {
        lemma_value_grows(s, i + 1);
        assert(s.take(i + 1).drop_last() =~= s.take(i));
        assert(is_digit(s[i]));
    }
}

/// Reads the unsigned number that the characters from `from` to `to` write.
pub fn parse_u64(cs: &Vec<char>, from: usize, to: usize) -> (r: Option<u64>)
    requires
        from <= to <= cs@.len(),
    ensures
        r == numeral(cs@.subrange(from as int, to as int)),
{
    let ghost s = cs@.subrange(from as int, to as int);
    let start: usize = if from < to && cs[from] == '+' {
        from + 1
    } else {
        from
    };
    let ghost d = cs@.subrange(start as int, to as int);
    proof {
        if from < to && cs@[from as int] == '+' {
            assert(d =~= s.skip(1));
        } else {
            assert(d =~= s);
        }
    }
    if start == to {
        return None;
    }
    let mut n: u64 = 0;
    let mut i: usize = start;
    while i < to
        invariant
            start <= i <= to <= cs@.len(),
            d == cs@.subrange(start as int, to as int),
            s == cs@.subrange(from as int, to as int),
            d == (if s.len() > 0 && s[0] == '+' {
                s.skip(1)
            } else {
                s
            }),
            d.len() > 0,
            all_digits(d.take(i - start)),
            n == value_of(d.take(i - start)),
        decreases to - i,
    {
        let c: u32 = code(cs[i]);
        assert(d[i - start] == cs@[i as int]);
        if c < 48 || c > 57 {
            assert(!is_digit(d[i - start]));
            return None;
        }
        let ghost t = d.take(i - start + 1);
        assert(t.drop_last() =~= d.take(i - start));
        let v: u64 = (c - 48) as u64;
        assert(value_of(t) == n * 10 + v);
        if n > (u64::MAX - v) / 10 {
            assert(n * 10 + v > u64::MAX);
            proof {
                if all_digits(d) {
                    lemma_value_grows(d, i - start + 1);
                }
            }
            return None;
        }
        n = n * 10 + v;
        i += 1;
    }
    assert(d.take(to - start) =~= d);
    Some(n)
}

/// The digits of a number write that number.
pub proof fn lemma_digits_value(n: nat)
    ensures
        all_digits(digits(n)),
        digits(n).len() >= 1,
        value_of(digits(n)) == n,
    decreases n,
{
    if n < 10 {
        assert(digits(n).drop_last() =~= Seq::<char>::empty());
        assert(value_of(Seq::<char>::empty()) == 0);
        assert(digits(n).last() == digit(n));
    } else {
        lemma_digits_value(n / 10);
        assert(digits(n).drop_last() =~= digits(n / 10));
    }
}

/// Leading zeros do not change a number.
proof fn lemma_zeros_value(k: nat, d: Seq<char>)
    requires
        all_digits(d),
    ensures
        all_digits(zeros(k) + d),
        value_of(zeros(k) + d) == value_of(d),
    decreases d.len(),
{
    if d.len() == 0 {
        assert(zeros(k) + d =~= zeros(k));
        lemma_zeros_nothing(k);
    } else {
        assert((zeros(k) + d).drop_last() =~= zeros(k) + d.drop_last());
        lemma_zeros_value(k, d.drop_last());
    }
}

proof fn lemma_zeros_nothing(k: nat)
    ensures
        value_of(zeros(k)) == 0,
    decreases k,
{
    if k > 0 {
        assert(zeros(k).drop_last() =~= zeros((k - 1) as nat));
        lemma_zeros_nothing((k - 1) as nat);
    }
}

/// A padded number writes that number.
pub proof fn lemma_padded_value(n: nat, width: nat)
    ensures
        all_digits(padded(n, width)),
        padded(n, width).len() >= 1,
        value_of(padded(n, width)) == n,
{
    lemma_digits_value(n);
    let d = digits(n);
    if d.len() < width {
        lemma_zeros_value((width - d.len()) as nat, d);
    }
}

/// Ten to the power `w`.
pub open spec fn pow10(w: nat) -> nat
    decreases w,
{
    if w == 0 {
        1
    } else {
        10 * pow10((w - 1) as nat)
    }
}

/// A number below ten to the power `w` has at most `w` digits.
proof fn lemma_digits_len(n: nat, w: nat)
    requires
        w >= 1,
        n < pow10(w),
    ensures
        1 <= digits(n).len() <= w,
    decreases n,
{
    if n >= 10 {
        assert(w >= 2) by {
            if w == 1 {
                assert(pow10(0) == 1);
            }
        }
        lemma_digits_len(n / 10, (w - 1) as nat);
    }
}

/// A padded number that fits is the padded tens followed by the last digit.
proof fn lemma_padded_step(n: nat, w: nat)
    requires
        w >= 2,
        n < pow10(w),
    ensures
        padded(n, w) == padded(n / 10, (w - 1) as nat).push(digit(n % 10)),
{
    lemma_digits_len(n, w);
    lemma_digits_len(n / 10, (w - 1) as nat);
    if n < 10 {
        assert(digits(0) =~= seq![digit(0)]);
        assert(digit(0) == '0');
        assert(padded(n, w) =~= zeros((w - 1) as nat).push(digit(n)));
        assert(padded(0, (w - 1) as nat) =~= zeros((w - 1) as nat));
    } else {
        assert(digits(n) == digits(n / 10).push(digit(n % 10)));
        assert(padded(n, w) =~= padded(n / 10, (w - 1) as nat).push(digit(n % 10)));
    }
}

/// Padded numbers that fit are as long as the padding.
pub proof fn lemma_padded_len(n: nat, w: nat)
    requires
        w >= 1,
        n < pow10(w),
    ensures
        padded(n, w).len() == w,
{
    lemma_digits_len(n, w);
}

/// Padded numbers that fit sort as the numbers do.
pub proof fn lemma_padded_sorts(n: nat, m: nat, w: nat)
    requires
        w >= 1,
        n < m < pow10(w),
    ensures
        lex_lt(padded(n, w), padded(m, w)),
    decreases w,
{
    lemma_padded_len(n, w);
    lemma_padded_len(m, w);
    if w == 1 {
        assert(pow10(1) == 10 * pow10(0));
        assert(padded(n, w) == seq![digit(n)]);
        assert(padded(m, w) == seq![digit(m)]);
        assert(parts_at(padded(n, w), padded(m, w), 0));
    } else {
        lemma_padded_step(n, w);
        lemma_padded_step(m, w);
        let a = padded(n / 10, (w - 1) as nat);
        let b = padded(m / 10, (w - 1) as nat);
        if n / 10 == m / 10 {
            lemma_padded_len(n / 10, (w - 1) as nat);
            assert(parts_at(padded(n, w), padded(m, w), w - 1));
        } else {
            lemma_padded_sorts(n / 10, m / 10, (w - 1) as nat);
            lemma_padded_len(n / 10, (w - 1) as nat);
            lemma_padded_len(m / 10, (w - 1) as nat);
            let k = choose|k: int| #[trigger] parts_at(a, b, k);
            assert(parts_at(padded(n, w), padded(m, w), k));
        }
    }
}

/// Texts of one length that sort apart do so whatever follows them.
pub proof fn lemma_lex_front(a: Seq<char>, b: Seq<char>, x: Seq<char>, y: Seq<char>)
    requires
        a.len() == b.len(),
        lex_lt(a, b),
    ensures
        lex_lt(a + x, b + y),
{
    let k = choose|k: int| #[trigger] parts_at(a, b, k);
    assert(parts_at(a + x, b + y, k));
}

/// Behind one front, texts sort as they do alone.
pub proof fn lemma_lex_back(a: Seq<char>, x: Seq<char>, y: Seq<char>)
    requires
        lex_lt(x, y),
    ensures
        lex_lt(a + x, a + y),
{
    let k = choose|k: int| #[trigger] parts_at(x, y, k);
    assert(parts_at(a + x, a + y, a.len() + k));
}

} // verus!
