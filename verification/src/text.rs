//! Text helpers: character sequences and decimal integers.

use vstd::prelude::*;
use vstd::string::*;

verus! {

/// Whether `c` is one of the ten ASCII digits.
pub open spec fn is_digit(c: char) -> bool {
    '0' <= c && c <= '9'
}

/// The ASCII digit of value `d`.
pub open spec fn digit_char(d: int) -> char {
    (48 + d) as char
}

/// The value of the ASCII digit `c`.
pub open spec fn digit_value(c: char) -> int {
    c as int - 48
}

/// Whether every character of `s` is an ASCII digit.
pub open spec fn all_digits(s: Seq<char>) -> bool {
    forall|i: int| 0 <= i < s.len() ==> is_digit(#[trigger] s[i])
}

/// The number that a sequence of digits denotes, most significant first.
pub open spec fn digits_value(s: Seq<char>) -> int
    decreases s.len(),
{
    if s.len() == 0 {
        0
    } else {
        digits_value(s.drop_last()) * 10 + digit_value(s.last())
    }
}

/// The decimal digits of `n`, without leading zeros.
pub open spec fn nat_text(n: nat) -> Seq<char>
    decreases n,
{
    if n < 10 {
        seq![digit_char(n as int)]
    } else {
        nat_text(n / 10).push(digit_char((n % 10) as int))
    }
}

/// The canonical decimal form of `i`: a leading `-` for negative numbers, no
/// `+`, no leading zeros.
pub open spec fn int_text(i: int) -> Seq<char> {
    if i < 0 {
        seq!['-'] + nat_text((-i) as nat)
    } else {
        nat_text(i as nat)
    }
}

/// Whether `s` starts with a sign.
pub open spec fn has_sign(s: Seq<char>) -> bool {
    s.len() > 0 && (s[0] == '-' || s[0] == '+')
}

/// `s` without its sign, if it has one.
pub open spec fn unsigned_part(s: Seq<char>) -> Seq<char> {
    if has_sign(s) {
        s.skip(1)
    } else {
        s
    }
}

/// The integer that `s` denotes: an optional sign followed by at least one
/// decimal digit and nothing else.
pub open spec fn int_of_text(s: Seq<char>) -> Option<int> {
    let digits = unsigned_part(s);
    if digits.len() == 0 || !all_digits(digits) {
        None
    } else if s[0] == '-' {
        Some(-digits_value(digits))
    } else {
        Some(digits_value(digits))
    }
}

/// The `i64` that `s` denotes, if it denotes an integer in range.
pub open spec fn i64_of_text(s: Seq<char>) -> Option<i64> {
    match int_of_text(s) {
        Some(v) => if i64::MIN <= v <= i64::MAX {
            Some(v as i64)
        } else {
            None
        },
        None => None,
    }
}

/// Digits followed by digits denote at least the number of the first ones.
proof fn lemma_digits_value_grows(s: Seq<char>, k: int)
    requires
        all_digits(s),
        0 <= k <= s.len(),
    ensures
        0 <= digits_value(s.take(k)) <= digits_value(s),
    decreases s.len(),
{
    if s.len() == 0 {
        assert(s.take(k) == s);
    } else {
        assert(is_digit(s[s.len() - 1]));
        assert(all_digits(s.drop_last())) by {
            assert forall|i: int| 0 <= i < s.drop_last().len() implies is_digit(
                #[trigger] s.drop_last()[i],
            ) by {
                assert(is_digit(s[i]));
            }
        }
        if k < s.len() {
            lemma_digits_value_grows(s.drop_last(), k);
            assert(s.drop_last().take(k) == s.take(k));
        } else {
            lemma_digits_value_grows(s.drop_last(), k - 1);
            assert(s.take(k) == s);
        }
    }
}

/// The canonical digits of `n` are digits, at least one of them, and denote `n`.
pub proof fn lemma_nat_text(n: nat)
    ensures
        all_digits(nat_text(n)),
        nat_text(n).len() > 0,
        digits_value(nat_text(n)) == n,
    decreases n,
{
    if n < 10 {
        let t = nat_text(n);
        assert(t =~= seq![digit_char(n as int)]);
        assert(t.drop_last() =~= Seq::<char>::empty());
        assert(digits_value(t.drop_last()) == 0);
    } else {
        lemma_nat_text(n / 10);
        let head = nat_text(n / 10);
        let t = nat_text(n);
        assert(t.drop_last() =~= head);
        assert forall|i: int| 0 <= i < t.len() implies is_digit(#[trigger] t[i]) by {
            if i < head.len() {
                assert(t[i] == head[i]);
            }
        }
    }
}

/// Reading a canonical decimal form gives the number back.
pub proof fn lemma_int_text_round_trip(i: int)
    ensures
        int_of_text(int_text(i)) == Some(i),
{
    let t = int_text(i);
    if i < 0 {
        let body = nat_text((-i) as nat);
        lemma_nat_text((-i) as nat);
        assert(t.skip(1) =~= body);
    } else {
        lemma_nat_text(i as nat);
        assert(is_digit(t[0]));
    }
}

/// Distinct integers have distinct canonical decimal forms.
pub proof fn lemma_int_text_injective(i: int, j: int)
    requires
        int_text(i) == int_text(j),
    ensures
        i == j,
{
    lemma_int_text_round_trip(i);
    lemma_int_text_round_trip(j);
}

/// A canonical decimal form contains only digits and possibly `-`.
pub proof fn lemma_int_text_chars(i: int)
    ensures
        int_text(i).len() > 0,
        forall|k: int|
            0 <= k < int_text(i).len() ==> is_digit(#[trigger] int_text(i)[k]) || int_text(i)[k]
                == '-',
{
    if i < 0 {
        lemma_nat_text((-i) as nat);
        let body = nat_text((-i) as nat);
        assert forall|k: int| 0 <= k < int_text(i).len() implies is_digit(
            #[trigger] int_text(i)[k],
        ) || int_text(i)[k] == '-' by {
            if k > 0 {
                assert(int_text(i)[k] == body[k - 1]);
            }
        }
    } else {
        lemma_nat_text(i as nat);
    }
}

/// Whether two texts hold the same characters.
pub fn text_eq(a: &str, b: &str) -> (r: bool)
    ensures
        r == (a@ == b@),
{
    a.to_owned() == b.to_owned()
}

/// The characters of a text.
pub fn chars_of(s: &str) -> (r: Vec<char>)
    ensures
        r@ == s@,
{
    let mut out: Vec<char> = Vec::new();
    for c in it: s.chars()
        invariant
            it.seq() == s@,
            out@ == s@.take(it.index() as int),
    {
        out.push(c);
        assert(out@ =~= s@.take(it.index() + 1));
    }
    assert(s@.take(s@.len() as int) =~= s@);
    out
}

/// Whether `a` comes before `b` in the lexicographic order of texts, character
/// by character.
pub open spec fn text_before(a: Seq<char>, b: Seq<char>) -> bool
    decreases a.len(),
{
    if b.len() == 0 {
        false
    } else if a.len() == 0 {
        true
    } else if a[0] != b[0] {
        a[0] < b[0]
    } else {
        text_before(a.skip(1), b.skip(1))
    }
}

/// Whether each text comes before all later ones.
pub open spec fn ascending_texts(texts: Seq<Seq<char>>) -> bool {
    forall|i: int, j: int|
        #![trigger texts[i], texts[j]]
        0 <= i < j < texts.len() ==> text_before(texts[i], texts[j])
}

/// Of two different texts one comes before the other, and no text before
/// itself.
pub proof fn lemma_text_before_total(a: Seq<char>, b: Seq<char>)
    ensures
        a != b <==> text_before(a, b) || text_before(b, a),
        !(text_before(a, b) && text_before(b, a)),
    decreases a.len(),
{
    if a.len() > 0 && b.len() > 0 {
        lemma_text_before_total(a.skip(1), b.skip(1));
        if a[0] == b[0] && a.skip(1) == b.skip(1) {
            assert(a =~= seq![a[0]] + a.skip(1));
            assert(b =~= seq![b[0]] + b.skip(1));
        }
    } else if a.len() == 0 && b.len() == 0 {
        assert(a =~= b);
    }
}

/// The order of texts is transitive.
pub proof fn lemma_text_before_transitive(a: Seq<char>, b: Seq<char>, c: Seq<char>)
    requires
        text_before(a, b),
        text_before(b, c),
    ensures
        text_before(a, c),
    decreases a.len(),
{
    if a.len() > 0 && a[0] == b[0] && b[0] == c[0] {
        lemma_text_before_transitive(a.skip(1), b.skip(1), c.skip(1));
    }
}

/// Ascending texts hold no text twice.
pub proof fn lemma_ascending_no_duplicates(texts: Seq<Seq<char>>)
    requires
        ascending_texts(texts),
    ensures
        texts.no_duplicates(),
{
    assert forall|i: int, j: int|
        0 <= i < texts.len() && 0 <= j < texts.len() && i != j implies texts[i] != texts[j] by {
        lemma_text_before_total(texts[i], texts[j]);
    }
}

/// A new text stays in order where all smaller ones stand before it and a
/// greater one after it.
pub proof fn lemma_insert_ascending(texts: Seq<Seq<char>>, at: int, text: Seq<char>)
    requires
        ascending_texts(texts),
        0 <= at <= texts.len(),
        forall|i: int| 0 <= i < at ==> text_before(#[trigger] texts[i], text),
        at < texts.len() ==> text_before(text, texts[at]),
    ensures
        ascending_texts(texts.insert(at, text)),
{
    let out = texts.insert(at, text);
    assert forall|i: int, j: int|
        #![trigger out[i], out[j]]
        0 <= i < j < out.len() implies text_before(out[i], out[j]) by {
        if i < at {
            assert(out[i] == texts[i]);
        } else if i > at {
            assert(out[i] == texts[i - 1]);
        }
        if j < at {
            assert(out[j] == texts[j]);
        } else if j > at {
            assert(out[j] == texts[j - 1]);
        }
        if i == at && j - 1 > at {
            lemma_text_before_transitive(text, texts[at], texts[j - 1]);
        }
    }
}

/// Picking out of ascending texts leaves them ascending.
pub proof fn lemma_filter_ascending(texts: Seq<Seq<char>>, pred: spec_fn(Seq<char>) -> bool)
    requires
        ascending_texts(texts),
    ensures
        ascending_texts(texts.filter(pred)),
    decreases texts.len(),
{
    reveal(Seq::filter);
    if texts.len() > 0 {
        let rest = texts.drop_last();
        lemma_filter_ascending(rest, pred);
        let kept = rest.filter(pred);
        let out = texts.filter(pred);
        if pred(texts.last()) {
            assert(out == kept.push(texts.last()));
            assert forall|i: int, j: int|
                #![trigger out[i], out[j]]
                0 <= i < j < out.len() implies text_before(out[i], out[j]) by {
                assert(out[i] == kept[i]);
                if j == kept.len() {
                    assert(kept.contains(kept[i]));
                    rest.lemma_filter_contains_rev(pred, kept[i]);
                    let k = rest.index_of(kept[i]);
                    assert(texts[k] == kept[i]);
                    assert(texts[texts.len() - 1] == texts.last());
                } else {
                    assert(out[j] == kept[j]);
                }
            }
        }
    }
}

/// Whether `a` comes before `b`.
pub fn is_text_before(a: &str, b: &str) -> (r: bool)
    ensures
        r == text_before(a@, b@),
{
    let left = chars_of(a);
    let right = chars_of(b);
    let mut i: usize = 0;
    proof {
        assert(a@.skip(0) =~= a@);
        assert(b@.skip(0) =~= b@);
    }
    while i < left.len() && i < right.len()
        invariant
            left@ == a@,
            right@ == b@,
            i <= left@.len(),
            i <= right@.len(),
            text_before(a@, b@) == text_before(a@.skip(i as int), b@.skip(i as int)),
        decreases left@.len() - i,
    {
        assert(a@.skip(i as int).skip(1) =~= a@.skip(i + 1));
        assert(b@.skip(i as int).skip(1) =~= b@.skip(i + 1));
        if left[i] != right[i] {
            return left[i] < right[i];
        }
        i = i + 1;
    }
    i < right.len()
}

/// The text of one digit.
fn digit_str(d: u64) -> (r: &'static str)
    requires
        d < 10,
    ensures
        r@ == seq![digit_char(d as int)],
{
    proof {
        reveal_strlit("0");
        reveal_strlit("1");
        reveal_strlit("2");
        reveal_strlit("3");
        reveal_strlit("4");
        reveal_strlit("5");
        reveal_strlit("6");
        reveal_strlit("7");
        reveal_strlit("8");
        reveal_strlit("9");
    }
    if d == 0 {
        "0"
    } else if d == 1 {
        "1"
    } else if d == 2 {
        "2"
    } else if d == 3 {
        "3"
    } else if d == 4 {
        "4"
    } else if d == 5 {
        "5"
    } else if d == 6 {
        "6"
    } else if d == 7 {
        "7"
    } else if d == 8 {
        "8"
    } else {
        "9"
    }
}

/// Appends the canonical decimal form of `n` to `out`.
pub fn append_u64(out: &mut String, n: u64)
    ensures
        final(out)@ == old(out)@ + nat_text(n as nat),
    decreases n,
{
    if n < 10 {
        out.append(digit_str(n));
    } else {
        append_u64(out, n / 10);
        out.append(digit_str(n % 10));
        proof {
            let head = nat_text((n / 10) as nat);
            assert(old(out)@ + head + seq![digit_char((n % 10) as int)] =~= old(out)@ + head.push(
                digit_char((n % 10) as int),
            ));
        }
    }
}

/// Appends the canonical decimal form of `i` to `out`.
pub fn append_i64(out: &mut String, i: i64)
    ensures
        final(out)@ == old(out)@ + int_text(i as int),
{
    if i < 0 {
        proof {
            reveal_strlit("-");
        }
        out.append("-");
        let magnitude: u64 = (-(i as i128)) as u64;
        append_u64(out, magnitude);
        proof {
            assert("-"@ =~= seq!['-']);
            assert(old(out)@ + seq!['-'] + nat_text((-i) as nat) =~= old(out)@ + (seq!['-']
                + nat_text((-i) as nat)));
        }
    } else {
        append_u64(out, i as u64);
    }
}

/// Reads an `i64` in decimal: an optional sign, then digits only.
pub fn parse_i64(s: &[char]) -> (r: Option<i64>)
    ensures
        r == i64_of_text(s@),
{
    let n: usize = s.len();
    if n == 0 {
        return None;
    }
    let negative: bool = s[0] == '-';
    let start: usize = if negative || s[0] == '+' {
        1
    } else {
        0
    };
    let ghost digits = unsigned_part(s@);
    assert(digits =~= s@.skip(start as int));
    if start == n {
        return None;
    }
    let limit: u64 = if negative {
        9223372036854775808
    } else {
        9223372036854775807
    };
    let mut acc: u64 = 0;
    let mut i: usize = start;
    while i < n
        invariant
            n == s@.len(),
            start <= i <= n,
            start <= 1,
            digits == s@.skip(start as int),
            digits == unsigned_part(s@),
            digits.len() > 0,
            negative == (s@[0] == '-'),
            limit == if negative {
                9223372036854775808u64
            } else {
                9223372036854775807u64
            },
            acc <= limit,
            all_digits(digits.take(i - start)),
            acc == digits_value(digits.take(i - start)),
        decreases n - i,
    {
        let c = s[i];
        assert(c == digits[i - start]);
        if !('0' <= c && c <= '9') {
            assert(!all_digits(digits));
            return None;
        }
        let d: u64 = (c as u32 - 48) as u64;
        let next: u128 = acc as u128 * 10 + d as u128;
        proof {
            let longer = digits.take(i - start + 1);
            assert(longer.drop_last() =~= digits.take(i - start));
            assert(longer.last() == c);
            assert(digits_value(longer) == next);
        }
        if next > limit as u128 {
            proof {
                if all_digits(digits) {
                    lemma_digits_value_grows(digits, i - start + 1);
                }
            }
            return None;
        }
        acc = next as u64;
        i = i + 1;
    }
    assert(digits.take(n - start) =~= digits);
    if negative {
        Some((-(acc as i128)) as i64)
    } else {
        Some(acc as i64)
    }
}

/// Decimal forms are built up digit by digit, and negative numbers have the form
/// of their magnitude after a `-`.
pub proof fn law_decimal_form(i: int)
    ensures
        0 <= i < 10 ==> int_text(i) == seq!["0123456789"@[i]],
        i >= 10 ==> int_text(i) == int_text(i / 10).push("0123456789"@[i % 10]),
        i < 0 ==> int_text(i) == seq!['-'] + int_text(-i),
{
    reveal_strlit("0123456789");
    if 0 <= i < 10 {
        assert("0123456789"@[i] == digit_char(i));
    }
    if i >= 10 {
        assert("0123456789"@[i % 10] == digit_char(i % 10));
    }
}

/// How many characters of `s` are a sign.
pub open spec fn sign_len(s: Seq<char>) -> int {
    if s.len() > 0 && (s[0] == '-' || s[0] == '+') {
        1
    } else {
        0
    }
}

/// A text denotes a number exactly where an optional sign is followed by decimal
/// digits, at least one, and by nothing else; it is an `i64` where that number
/// is in range.
pub proof fn law_decimal_texts_are_read(s: Seq<char>)
    ensures
        int_of_text(s) is Some <==> s.len() > sign_len(s) && forall|i: int|
            sign_len(s) <= i < s.len() ==> '0' <= #[trigger] s[i] <= '9',
        i64_of_text(s) is Some <==> int_of_text(s) is Some && i64::MIN <= int_of_text(s)->Some_0
            <= i64::MAX,
        i64_of_text(s) is Some ==> i64_of_text(s)->Some_0 == int_of_text(s)->Some_0,
{
    let k = sign_len(s);
    let digits = unsigned_part(s);
    assert(digits =~= s.skip(k));
    if forall|i: int| k <= i < s.len() ==> '0' <= #[trigger] s[i] <= '9' {
        assert forall|i: int| 0 <= i < digits.len() implies is_digit(#[trigger] digits[i]) by {
            assert('0' <= s[i + k] <= '9');
        }
    }
    if all_digits(digits) {
        assert forall|i: int| k <= i < s.len() implies '0' <= #[trigger] s[i] <= '9' by {
            assert(is_digit(digits[i - k]));
        }
    }
}

/// Each further digit of a number is worth a tenth of the one before, and a sign
/// in front does what it says.
pub proof fn law_digits_are_read_by_place(s: Seq<char>, d: int)
    requires
        0 <= d < 10,
        s.len() > 0,
        forall|i: int| 0 <= i < s.len() ==> '0' <= #[trigger] s[i] <= '9',
    ensures
        int_of_text(seq!["0123456789"@[d]]) == Some(d),
        int_of_text(s) is Some,
        int_of_text(s.push("0123456789"@[d])) == Some(10 * int_of_text(s)->Some_0 + d),
        int_of_text(seq!['-'] + s) == Some(-int_of_text(s)->Some_0),
        int_of_text(seq!['+'] + s) == int_of_text(s),
{
    reveal_strlit("0123456789");
    let c = "0123456789"@[d];
    assert(c == digit_char(d));
    let one = seq![c];
    assert('0' <= s[0] <= '9');
    assert(all_digits(s)) by {
        assert forall|i: int| 0 <= i < s.len() implies is_digit(#[trigger] s[i]) by {
            assert('0' <= s[i] <= '9');
        }
    }
    assert(unsigned_part(s) == s);
    assert(one.drop_last() =~= Seq::<char>::empty());
    assert(digits_value(one.drop_last()) == 0);
    assert(all_digits(one));
    assert(unsigned_part(one) == one);
    let longer = s.push(c);
    assert(longer[0] == s[0]);
    assert(unsigned_part(longer) == longer);
    assert(longer.drop_last() =~= s);
    assert(all_digits(longer)) by {
        assert forall|i: int| 0 <= i < longer.len() implies is_digit(#[trigger] longer[i]) by {
            if i < s.len() {
                assert(is_digit(s[i]));
            }
        }
    }
    assert((seq!['-'] + s).skip(1) =~= s);
    assert((seq!['+'] + s).skip(1) =~= s);
}

/// One text comes before another exactly where it is a proper beginning of it,
/// or where, after a common beginning, its next character is the smaller one.
pub proof fn law_texts_are_ordered_by_first_difference(a: Seq<char>, b: Seq<char>)
    ensures
        text_before(a, b) <==> exists|k: int|
            {
                &&& 0 <= k <= a.len()
                &&& k < b.len()
                &&& #[trigger] a.take(k) == b.take(k)
                &&& k == a.len() || a[k] < b[k]
            },
    decreases a.len(),
{
    if a.len() == 0 {
        assert(a.take(0) =~= b.take(0));
    } else if b.len() > 0 {
        let (x, y) = (a.skip(1), b.skip(1));
        law_texts_are_ordered_by_first_difference(x, y);
        if text_before(a, b) {
            if a[0] != b[0] {
                assert(a.take(0) =~= b.take(0));
            } else {
                let k = choose|k: int|
                    {
                        &&& 0 <= k <= x.len()
                        &&& k < y.len()
                        &&& #[trigger] x.take(k) == y.take(k)
                        &&& k == x.len() || x[k] < y[k]
                    };
                assert(a.take(k + 1) =~= seq![a[0]] + x.take(k));
                assert(b.take(k + 1) =~= seq![b[0]] + y.take(k));
                assert(a.take(k + 1) == b.take(k + 1));
            }
        }
        if exists|k: int|
            {
                &&& 0 <= k <= a.len()
                &&& k < b.len()
                &&& #[trigger] a.take(k) == b.take(k)
                &&& k == a.len() || a[k] < b[k]
            } {
            let k = choose|k: int|
                {
                    &&& 0 <= k <= a.len()
                    &&& k < b.len()
                    &&& #[trigger] a.take(k) == b.take(k)
                    &&& k == a.len() || a[k] < b[k]
                };
            if k > 0 {
                assert(a.take(k)[0] == b.take(k)[0]);
                assert(x.take(k - 1) =~= a.take(k).skip(1));
                assert(y.take(k - 1) =~= b.take(k).skip(1));
                assert(x.take(k - 1) == y.take(k - 1));
            }
        }
    }
}

/// Texts ascend exactly where each is before the next one.
pub proof fn law_texts_ascend_step_by_step(texts: Seq<Seq<char>>)
    ensures
        ascending_texts(texts) <==> forall|i: int|
            0 <= i < texts.len() - 1 ==> text_before(#[trigger] texts[i], texts[i + 1]),
{
    if forall|i: int|
        0 <= i < texts.len() - 1 ==> text_before(#[trigger] texts[i], texts[i + 1]) {
        assert forall|i: int, j: int|
            #![trigger texts[i], texts[j]]
            0 <= i < j < texts.len() implies text_before(texts[i], texts[j]) by {
            lemma_steps_ascend(texts, i, j);
        }
    }
}

proof fn lemma_steps_ascend(texts: Seq<Seq<char>>, i: int, j: int)
    requires
        0 <= i < j < texts.len(),
        forall|k: int|
            0 <= k < texts.len() - 1 ==> text_before(#[trigger] texts[k], texts[k + 1]),
    ensures
        text_before(texts[i], texts[j]),
    decreases j - i,
{
    assert(text_before(texts[j - 1], texts[j - 1 + 1]));
    if i < j - 1 {
        lemma_steps_ascend(texts, i, j - 1);
        lemma_text_before_transitive(texts[i], texts[j - 1], texts[j]);
    }
}

} // verus!
