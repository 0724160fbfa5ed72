use vstd::arithmetic::div_mod::{lemma_div_denominator, lemma_mod_breakdown};
use vstd::prelude::*;
use vstd::string::{StrSliceExecFns, StringExecFns};

verus! {

pub open spec fn pow10(k: nat) -> nat
    decreases k,
{
    if k == 0 {
        1
    } else {
        10 * pow10((k - 1) as nat)
    }
}

/// Number of decimal digits of `n` (one for zero).
pub open spec fn num_digits(n: nat) -> nat
    decreases n,
{
    if n < 10 {
        1
    } else {
        1 + num_digits(n / 10)
    }
}

/// Width of the length field: the number of decimal digits of the largest `usize`.
pub open spec fn field_width() -> nat {
    num_digits(usize::MAX as nat)
}

pub open spec fn digit_char(d: nat) -> char {
    (d + 48) as u8 as char
}

pub open spec fn is_digit(c: char) -> bool {
    '0' <= c && c <= '9'
}

pub open spec fn digit_value(c: char) -> nat {
    (c as u32 - 48) as nat
}

pub open spec fn all_digits(s: Seq<char>) -> bool {
    forall|i: int| 0 <= i < s.len() ==> is_digit(#[trigger] s[i])
}

/// `n` written in decimal on exactly `width` digits, most significant first, left-padded
/// with zeros (only the last `width` digits are kept when `n` needs more).
pub open spec fn fixed_decimal(n: nat, width: nat) -> Seq<char> {
    Seq::new(width, |i: int| digit_char((n / pow10((width - 1 - i) as nat)) % 10))
}

/// The number that a sequence of decimal digits spells, most significant first.
pub open spec fn digits_value(s: Seq<char>) -> nat
    decreases s.len(),
{
    if s.len() == 0 {
        0
    } else {
        digits_value(s.drop_last()) * 10 + digit_value(s.last())
    }
}

proof fn lemma_pow10_positive(k: nat)
    ensures
        pow10(k) > 0,
    decreases k,
{
    if k > 0 {
        lemma_pow10_positive((k - 1) as nat);
    }
}

proof fn lemma_num_digits_bounds(n: nat)
    ensures
        n < pow10(num_digits(n)),
        num_digits(n) >= 1,
        num_digits(n) <= n || n == 0,
        pow10((num_digits(n) - 1) as nat) <= n || n == 0,
    decreases n,
{
    if n < 10 {
        assert(pow10(1) == 10 * pow10(0));
    } else {
        lemma_num_digits_bounds(n / 10);
        let p = pow10(num_digits(n / 10));
        let q = pow10((num_digits(n / 10) - 1) as nat);
        assert(pow10(num_digits(n)) == 10 * p);
        assert(n < 10 * p) by (nonlinear_arith)
            requires
                n / 10 < p,
        ;
        assert(pow10((num_digits(n) - 1) as nat) == p);
        if n / 10 > 0 {
            assert(pow10(num_digits(n / 10)) == 10 * q);
            assert(10 * q <= n) by (nonlinear_arith)
                requires
                    q <= n / 10,
            ;
        }
    }
}

/// Every width of the field holds every `usize`.
pub proof fn lemma_field_holds(n: nat)
    requires
        n <= usize::MAX,
    ensures
        n < pow10(field_width()),
{
    lemma_num_digits_bounds(usize::MAX as nat);
}

proof fn lemma_digit_char(d: nat)
    requires
        d < 10,
    ensures
        is_digit(digit_char(d)),
        digit_value(digit_char(d)) == d,
{
}

/// Reading back the fixed-width digits of `n` gives `n` modulo `10^width`.
pub proof fn lemma_fixed_decimal_value(n: nat, width: nat)
    ensures
        all_digits(fixed_decimal(n, width)),
        digits_value(fixed_decimal(n, width)) == n % pow10(width),
    decreases width,
{
    let s = fixed_decimal(n, width);
    assert forall|i: int| 0 <= i < s.len() implies is_digit(#[trigger] s[i]) by {
        lemma_pow10_positive((width - 1 - i) as nat);
        lemma_digit_char((n / pow10((width - 1 - i) as nat)) % 10);
    }
    if width > 0 {
        let w1 = (width - 1) as nat;
        lemma_fixed_decimal_value(n / 10, w1);
        assert forall|i: int| 0 <= i < w1 implies #[trigger] s.drop_last()[i] == fixed_decimal(
            n / 10,
            w1,
        )[i] by {
            let k = (w1 - 1 - i) as nat;
            lemma_pow10_positive(k);
            lemma_div_denominator(n as int, 10, pow10(k) as int);
            assert(pow10((width - 1 - i) as nat) == 10 * pow10(k));
        }
        assert(s.drop_last() =~= fixed_decimal(n / 10, w1));
        lemma_digit_char(n % 10);
        assert(pow10(0) == 1);
        assert(s.last() == digit_char((n / pow10(0)) % 10));
        assert(n / 1 == n);
        lemma_pow10_positive(w1);
        lemma_mod_breakdown(n as int, 10, pow10(w1) as int);
    }
}

/// Reading a prefix of digits never gives more than reading the whole.
proof fn lemma_digits_value_prefix(s: Seq<char>, k: nat)
    requires
        k <= s.len(),
    ensures
        digits_value(s.take(k as int)) <= digits_value(s),
    decreases s.len(),
{
    if k < s.len() {
        lemma_digits_value_prefix(s.drop_last(), k);
        assert(s.drop_last().take(k as int) =~= s.take(k as int));
    } else {
        assert(s.take(k as int) =~= s);
    }
}

/// The width of the length field, counted on `usize::MAX` itself.
pub fn length_width() -> (w: usize)
    ensures
        w as nat == field_width(),
{
    proof {
        lemma_num_digits_bounds(usize::MAX as nat);
    }
    let mut m: usize = usize::MAX;
    let mut w: usize = 1;
    while m >= 10
        invariant
            w >= 1,
            w + num_digits(m as nat) == field_width() + 1,
            field_width() <= usize::MAX,
        decreases m,
    {
        proof {
            lemma_num_digits_bounds((m / 10) as nat);
        }
        m = m / 10;
        w = w + 1;
    }
    w
}

/// The one-character text of a decimal digit.
fn digit_text(d: u8) -> (r: &'static str)
    requires
        d < 10,
    ensures
        r@ == seq![digit_char(d as nat)],
{
    let digits = "0123456789";
    proof {
        reveal_strlit("0123456789");
    }
    assert(digits@[d as int] == digit_char(d as nat));
    let r = digits.substring_ascii(d as usize, d as usize + 1);
    assert(r@ =~= seq![digit_char(d as nat)]);
    r
}

/// `n` as the fixed-width, zero-padded decimal length field.
pub fn defined_output(n: usize) -> (r: String)
    ensures
        r@ == fixed_decimal(n as nat, field_width()),
        r@.len() == field_width(),
{
    let width = length_width();
    // decimal digits of `n`, least significant first
    let mut low_first: Vec<u8> = Vec::new();
    let mut m: usize = n;
    let mut j: usize = 0;
    assert(pow10(0) == 1 && n as nat / 1 == n as nat);
    while j < width
        invariant
            width as nat == field_width(),
            j <= width,
            low_first@.len() == j,
            m as nat == n as nat / pow10(j as nat),
            forall|k: int|
                0 <= k < j ==> #[trigger] low_first@[k] as nat == (n as nat / pow10(k as nat)) % 10,
        decreases width - j,
    {
        proof {
            lemma_pow10_positive(j as nat);
            lemma_div_denominator(n as int, pow10(j as nat) as int, 10);
            assert(pow10((j + 1) as nat) == pow10(j as nat) * 10);
        }
        low_first.push((m % 10) as u8);
        m = m / 10;
        j = j + 1;
    }
    let mut out = String::new();
    let mut i: usize = 0;
    while i < width
        invariant
            width as nat == field_width(),
            i <= width,
            low_first@.len() == width,
            forall|k: int|
                0 <= k < width ==> #[trigger] low_first@[k] as nat == (n as nat / pow10(k as nat)) % 10,
            out@ == fixed_decimal(n as nat, field_width()).take(i as int),
        decreases width - i,
    {
        let d = low_first[width - 1 - i];
        out.append(digit_text(d));
        i = i + 1;
        assert(out@ =~= fixed_decimal(n as nat, field_width()).take(i as int));
    }
    assert(out@ =~= fixed_decimal(n as nat, field_width()));
    out
}

/// Whether `text` opens with a well-formed length field: `field_width()` decimal digits
/// whose value fits in a `usize`.
pub open spec fn has_length_field(text: Seq<char>) -> bool {
    &&& text.len() >= field_width()
    &&& all_digits(text.take(field_width() as int))
    &&& digits_value(text.take(field_width() as int)) <= usize::MAX
}

/// The value of the length field at the head of `text`.
pub open spec fn length_field(text: Seq<char>) -> nat {
    digits_value(text.take(field_width() as int))
}

/// Reads the length field at the head of `text`, or `None` when it is not well formed.
pub fn read_length(text: &str) -> (r: Option<usize>)
    ensures
        match r {
            Some(l) => has_length_field(text@) && l as nat == length_field(text@),
            None => !has_length_field(text@),
        },
{
    let width = length_width();
    let n = text.unicode_len();
    if n < width {
        return None;
    }
    let ghost head = text@.take(width as int);
    let mut acc: usize = 0;
    let mut i: usize = 0;
    assert(text@.take(0) =~= Seq::<char>::empty());
    while i < width
        invariant
            width as nat == field_width(),
            n as nat == text@.len(),
            i <= width <= n,
            head == text@.take(width as int),
            acc as nat == digits_value(text@.take(i as int)),
            all_digits(text@.take(i as int)),
        decreases width - i,
    {
        let c = text.get_char(i);
        assert(head[i as int] == c);
        if !('0' <= c && c <= '9') {
            return None;
        }
        let d = (c as u32 - 48) as usize;
        assert(text@.take(i + 1).drop_last() =~= text@.take(i as int));
        assert(head.take(i + 1) =~= text@.take(i + 1));
        proof {
            lemma_digits_value_prefix(head, (i + 1) as nat);
        }
        match acc.checked_mul(10) {
            None => {
                return None;
            },
            Some(t) => match t.checked_add(d) {
                None => {
                    return None;
                },
                Some(v) => {
                    acc = v;
                },
            },
        }
        i = i + 1;
    }
    assert(text@.take(width as int) =~= head);
    Some(acc)
}

} // verus!
