//! Deterministic image names.
//!
//! A capture is stored under the name `"{round}_{image}"`, both numbers in
//! decimal without leading zeros. The scheme is proved injective over
//! `(round, image)` pairs, which is what makes the image index a bijection
//! with the set of completed captures.

use vstd::prelude::*;

verus! {

/// The character for the decimal digit `d`.
pub open spec fn digit_char(d: int) -> char {
    if d == 0 {
        '0'
    } else if d == 1 {
        '1'
    } else if d == 2 {
        '2'
    } else if d == 3 {
        '3'
    } else if d == 4 {
        '4'
    } else if d == 5 {
        '5'
    } else if d == 6 {
        '6'
    } else if d == 7 {
        '7'
    } else if d == 8 {
        '8'
    } else {
        '9'
    }
}

pub open spec fn is_digit_char(c: char) -> bool {
    c == '0' || c == '1' || c == '2' || c == '3' || c == '4' || c == '5' || c == '6' || c == '7'
        || c == '8' || c == '9'
}

/// Decimal digits of `n`, most significant first, without leading zeros.
pub open spec fn dec_digits(n: nat) -> Seq<char>
    decreases n,
{
    if n < 10 {
        seq![digit_char(n as int)]
    } else {
        dec_digits(n / 10).push(digit_char((n % 10) as int))
    }
}

/// The name under which capture `image` of round `round` is stored.
pub open spec fn image_name(round: nat, image: nat) -> Seq<char> {
    dec_digits(round) + seq!['_'] + dec_digits(image)
}

fn digit_str(d: u64) -> (s: &'static str)
    requires
        d < 10,
    ensures
        s@ == seq![digit_char(d as int)],
{
    let s: &'static str = if d == 0 {
        "0"
    } else if d == 1 {
        "1"
    } else if d == 2 {
        "2"
    } else if d == 3 {
        "3"
    } else if d == 4 {
        "4"
    } else if d == 5 {
        "5"
    } else if d == 6 {
        "6"
    } else if d == 7 {
        "7"
    } else if d == 8 {
        "8"
    } else {
        "9"
    };
    proof {
        reveal_strlit("0");
        reveal_strlit("1");
        reveal_strlit("2");
        reveal_strlit("3");
        reveal_strlit("4");
        reveal_strlit("5");
        reveal_strlit("6");
        reveal_strlit("7");
        reveal_strlit("8");
        reveal_strlit("9");
        assert(s@ =~= seq![digit_char(d as int)]);
    }
    s
}

/// Decimal rendering of `n`, e.g. `0` to `"0"` and `207` to `"207"`.
pub fn u64_to_dec(n: u64) -> (s: String)
    ensures
        s@ == dec_digits(n as nat),
    decreases n,
{
    if n < 10 {
        String::from_str(digit_str(n))
    } else {
        let mut s = u64_to_dec(n / 10);
        s.append(digit_str(n % 10));
        proof {
            assert(s@ =~= dec_digits(n as nat));
        }
        s
    }
}

/// Builds the storage name for capture `image` of round `round`.
pub fn make_image_name(round: u64, image: u64) -> (s: String)
    ensures
        s@ == image_name(round as nat, image as nat),
{
    let mut s = u64_to_dec(round);
    s.append("_");
    let rest = u64_to_dec(image);
    s.append(rest.as_str());
    proof {
        reveal_strlit("_");
        assert(s@ =~= image_name(round as nat, image as nat));
    }
    s
}

/// Every character of a decimal rendering is a digit, and the rendering is
/// never empty.
pub proof fn lemma_dec_digits_shape(n: nat)
    ensures
        dec_digits(n).len() >= 1,
        forall|i: int|
            0 <= i < dec_digits(n).len() ==> is_digit_char(#[trigger] dec_digits(n)[i]),
    decreases n,
{
    if n >= 10 {
        lemma_dec_digits_shape(n / 10);
    }
}

proof fn lemma_digit_char_injective(x: int, y: int)
    requires
        0 <= x < 10,
        0 <= y < 10,
        digit_char(x) == digit_char(y),
    ensures
        x == y,
{
}

/// Decimal renderings without leading zeros are injective.
pub proof fn lemma_dec_digits_injective(a: nat, b: nat)
    requires
        dec_digits(a) == dec_digits(b),
    ensures
        a == b,
    decreases a,
{
    if a < 10 && b < 10 {
        assert(dec_digits(a)[0] == digit_char(a as int));
        assert(dec_digits(b)[0] == digit_char(b as int));
        lemma_digit_char_injective(a as int, b as int);
    } else if a < 10 {
        lemma_dec_digits_shape(b / 10);
        assert(dec_digits(b).len() >= 2);
        assert(false);
    } else if b < 10 {
        lemma_dec_digits_shape(a / 10);
        assert(dec_digits(a).len() >= 2);
        assert(false);
    } else {
        assert(dec_digits(a).last() == digit_char((a % 10) as int));
        assert(dec_digits(b).last() == digit_char((b % 10) as int));
        lemma_digit_char_injective((a % 10) as int, (b % 10) as int);
        assert(dec_digits(a).drop_last() =~= dec_digits(a / 10));
        assert(dec_digits(b).drop_last() =~= dec_digits(b / 10));
        lemma_dec_digits_injective(a / 10, b / 10);
        assert(a == 10 * (a / 10) + a % 10);
        assert(b == 10 * (b / 10) + b % 10);
    }
}

/// The naming scheme is injective: equal names come from equal
/// `(round, image)` pairs.
pub proof fn lemma_image_name_injective(r1: nat, i1: nat, r2: nat, i2: nat)
    requires
        image_name(r1, i1) == image_name(r2, i2),
    ensures
        r1 == r2,
        i1 == i2,
{
    let d1 = dec_digits(r1);
    let d2 = dec_digits(r2);
    let e1 = dec_digits(i1);
    let e2 = dec_digits(i2);
    lemma_dec_digits_shape(r1);
    lemma_dec_digits_shape(r2);
    lemma_dec_digits_shape(i1);
    lemma_dec_digits_shape(i2);
    let l1 = d1.len() as int;
    let l2 = d2.len() as int;
    assert(image_name(r1, i1)[l1] == '_');
    assert(image_name(r2, i2)[l2] == '_');
    if l1 < l2 {
        assert(image_name(r2, i2)[l1] == d2[l1]);
        assert(is_digit_char(d2[l1]));
        assert(false);
    } else if l2 < l1 {
        assert(image_name(r1, i1)[l2] == d1[l2]);
        assert(is_digit_char(d1[l2]));
        assert(false);
    }
    assert(d1 =~= d2) by {
        assert(forall|i: int| 0 <= i < l1 ==> image_name(r1, i1)[i] == #[trigger] d1[i]);
        assert(forall|i: int| 0 <= i < l1 ==> image_name(r2, i2)[i] == #[trigger] d2[i]);
    }
    lemma_dec_digits_injective(r1, r2);
    assert(image_name(r1, i1).len() == l1 + 1 + e1.len());
    assert(image_name(r2, i2).len() == l2 + 1 + e2.len());
    assert(e1.len() == e2.len());
    assert(e1 =~= e2) by {
        assert(forall|j: int|
            0 <= j < e1.len() ==> image_name(r1, i1)[l1 + 1 + j] == #[trigger] e1[j]);
        assert(forall|j: int|
            0 <= j < e2.len() ==> image_name(r2, i2)[l2 + 1 + j] == #[trigger] e2[j]);
    }
    lemma_dec_digits_injective(i1, i2);
}

} // verus!
