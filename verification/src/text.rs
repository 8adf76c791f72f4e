use vstd::arithmetic::div_mod::lemma_mod_breakdown;
use vstd::arithmetic::power::{lemma_pow_positive, pow};
use vstd::prelude::*;
use vstd::relations::{sorted_by, total_ordering};

verus! {

/// The character of hexadecimal digit `d` (`d < 16`), in upper or lower case.
pub open spec fn hex_char(d: nat, upper: bool) -> char {
    if d < 10 {
        (('0' as nat) + d) as char
    } else if upper {
        (('A' as nat) + (d - 10)) as char
    } else {
        (('a' as nat) + (d - 10)) as char
    }
}

/// The last `width` hexadecimal digits of `v`, most significant first.
pub open spec fn hex_digits(v: nat, width: nat, upper: bool) -> Seq<char>
    decreases width,
{
    if width == 0 {
        Seq::empty()
    } else {
        hex_digits(v / 16, (width - 1) as nat, upper).push(hex_char(v % 16, upper))
    }
}

/// `hex_digits` gives exactly `width` digits.
pub proof fn lemma_hex_digits_len(v: nat, width: nat, upper: bool)
    ensures
        hex_digits(v, width, upper).len() == width,
    decreases width,
{
    if width > 0 {
        lemma_hex_digits_len(v / 16, (width - 1) as nat, upper);
    }
}

/// The decimal numeral of `n`, without leading zeros.
pub open spec fn decimal(n: nat) -> Seq<char>
    decreases n,
{
    if n < 10 {
        seq![hex_char(n, true)]
    } else {
        decimal(n / 10).push(hex_char(n % 10, true))
    }
}

proof fn lemma_decimal_len(n: nat)
    ensures
        decimal(n).len() >= 1,
        decimal(n).len() == 1 <==> n < 10,
    decreases n,
{
    if n >= 10 {
        lemma_decimal_len(n / 10);
    }
}

/// Different numbers have different decimal numerals.
pub proof fn lemma_decimal_injective(p: nat, q: nat)
    requires
        decimal(p) == decimal(q),
    ensures
        p == q,
    decreases p,
{
    lemma_decimal_len(p);
    lemma_decimal_len(q);
    if p >= 10 && q >= 10 {
        assert(decimal(p).drop_last() == decimal(p / 10));
        assert(decimal(q).drop_last() == decimal(q / 10));
        lemma_decimal_injective(p / 10, q / 10);
        assert(decimal(p).last() == hex_char(p % 10, true));
        assert(decimal(q).last() == hex_char(q % 10, true));
    } else if p < 10 && q < 10 {
        assert(decimal(p)[0] == hex_char(p, true));
        assert(decimal(q)[0] == hex_char(q, true));
    }
}

/// `prefix`, a numeral, then `suffix`, determines the number.
pub proof fn lemma_numbered_injective(prefix: Seq<char>, p: nat, q: nat, suffix: Seq<char>)
    requires
        prefix + decimal(p) + suffix == prefix + decimal(q) + suffix,
    ensures
        p == q,
{
    let a = prefix + decimal(p) + suffix;
    let b = prefix + decimal(q) + suffix;
    assert(a.len() == b.len());
    assert(decimal(p) =~= a.subrange(prefix.len() as int, a.len() - suffix.len()));
    assert(decimal(q) =~= b.subrange(prefix.len() as int, b.len() - suffix.len()));
    lemma_decimal_injective(p, q);
}

/// The one-character string of hexadecimal digit `d`.
fn digit_str(d: u64, upper: bool) -> (r: &'static str)
    requires
        d < 16,
    ensures
        r@ == seq![hex_char(d as nat, upper)],
{
    proof {
        reveal_strlit("0");
        reveal_strlit("1");
        reveal_strlit("2");
        reveal_strlit("3");
        reveal_strlit("4");
        reveal_strlit("5");
        reveal_strlit("6");
        reveal_strlit("7");
        reveal_strlit("8");
        reveal_strlit("9");
        reveal_strlit("A");
        reveal_strlit("B");
        reveal_strlit("C");
        reveal_strlit("D");
        reveal_strlit("E");
        reveal_strlit("F");
        reveal_strlit("a");
        reveal_strlit("b");
        reveal_strlit("c");
        reveal_strlit("d");
        reveal_strlit("e");
        reveal_strlit("f");
    }
    let r = match d {
        0 => "0",
        1 => "1",
        2 => "2",
        3 => "3",
        4 => "4",
        5 => "5",
        6 => "6",
        7 => "7",
        8 => "8",
        9 => "9",
        10 => if upper {
            "A"
        } else {
            "a"
        },
        11 => if upper {
            "B"
        } else {
            "b"
        },
        12 => if upper {
            "C"
        } else {
            "c"
        },
        13 => if upper {
            "D"
        } else {
            "d"
        },
        14 => if upper {
            "E"
        } else {
            "e"
        },
        _ => if upper {
            "F"
        } else {
            "f"
        },
    };
    assert(r@ =~= seq![hex_char(d as nat, upper)]);
    r
}

/// Appends the last `width` hexadecimal digits of `v`.
pub fn append_hex(s: &mut String, v: u64, width: usize, upper: bool)
    ensures
        final(s)@ == old(s)@ + hex_digits(v as nat, width as nat, upper),
    decreases width,
{
    if width == 0 {
        assert(old(s)@ + hex_digits(v as nat, 0, upper) =~= old(s)@);
        return;
    }
    append_hex(s, v / 16, width - 1, upper);
    s.append(digit_str(v % 16, upper));
    assert(s@ =~= old(s)@ + hex_digits(v as nat, width as nat, upper));
}

/// Appends the decimal numeral of `n`.
pub fn append_decimal(s: &mut String, n: u64)
    ensures
        final(s)@ == old(s)@ + decimal(n as nat),
    decreases n,
{
    if n >= 10 {
        append_decimal(s, n / 10);
    }
    s.append(digit_str(n % 10, true));
    assert(s@ =~= old(s)@ + decimal(n as nat));
}

/// A new string holding `t`.
pub fn string_of(t: &str) -> (r: String)
    ensures
        r@ == t@,
{
    String::from_str(t)
}


/// Lexicographic order on texts, by character code: the order of `String`'s comparison
/// (UTF-8 byte order agrees with code point order).
pub open spec fn text_le(a: Seq<char>, b: Seq<char>) -> bool
    decreases a.len(),
{
    if a.len() == 0 {
        true
    } else if b.len() == 0 {
        false
    } else if (a[0] as int) < (b[0] as int) {
        true
    } else if (a[0] as int) > (b[0] as int) {
        false
    } else {
        text_le(a.drop_first(), b.drop_first())
    }
}

/// `text_le` as a relation.
pub open spec fn text_order() -> spec_fn(Seq<char>, Seq<char>) -> bool {
    |a: Seq<char>, b: Seq<char>| text_le(a, b)
}

/// The texts of a sequence of strings.
pub open spec fn texts(s: Seq<String>) -> Seq<Seq<char>> {
    s.map_values(|x: String| x@)
}

proof fn lemma_text_le_reflexive(a: Seq<char>)
    ensures
        text_le(a, a),
    decreases a.len(),
{
    if a.len() > 0 {
        lemma_text_le_reflexive(a.drop_first());
    }
}

proof fn lemma_text_le_antisymmetric(a: Seq<char>, b: Seq<char>)
    requires
        text_le(a, b),
        text_le(b, a),
    ensures
        a == b,
    decreases a.len(),
{
    if a.len() > 0 && b.len() > 0 {
        lemma_text_le_antisymmetric(a.drop_first(), b.drop_first());
        assert(a[0] == b[0]);
        assert(a =~= seq![a[0]] + a.drop_first());
        assert(b =~= seq![b[0]] + b.drop_first());
    }
}

proof fn lemma_text_le_transitive(a: Seq<char>, b: Seq<char>, c: Seq<char>)
    requires
        text_le(a, b),
        text_le(b, c),
    ensures
        text_le(a, c),
    decreases a.len(),
{
    if a.len() > 0 && b.len() > 0 && c.len() > 0 {
        if a[0] == b[0] && b[0] == c[0] {
            lemma_text_le_transitive(a.drop_first(), b.drop_first(), c.drop_first());
        }
    }
}

proof fn lemma_text_le_total(a: Seq<char>, b: Seq<char>)
    ensures
        text_le(a, b) || text_le(b, a),
    decreases a.len(),
{
    if a.len() > 0 && b.len() > 0 {
        lemma_text_le_total(a.drop_first(), b.drop_first());
    }
}

/// `text_le` is a total order.
pub proof fn lemma_text_order_total()
    ensures
        total_ordering(text_order()),
{
    assert forall|a: Seq<char>| #[trigger] text_order()(a, a) by {
        lemma_text_le_reflexive(a);
    }
    assert forall|a: Seq<char>, b: Seq<char>| #[trigger] text_order()(a, b) && #[trigger] text_order()(b, a) implies a == b by {
        lemma_text_le_antisymmetric(a, b);
    }
    assert forall|a: Seq<char>, b: Seq<char>, c: Seq<char>| #[trigger] text_order()(a, b) && #[trigger] text_order()(b, c) implies text_order()(a, c) by {
        lemma_text_le_transitive(a, b, c);
    }
    assert forall|a: Seq<char>, b: Seq<char>| #[trigger] text_order()(a, b) || #[trigger] text_order()(b, a) by {
        lemma_text_le_total(a, b);
    }
}

/// Whether `a` comes before `b` or equals it, by character code.
pub fn text_le_exec(a: &String, b: &String) -> (r: bool)
    ensures
        r == text_le(a@, b@),
{
    let sa = a.as_str();
    let sb = b.as_str();
    let la = sa.unicode_len();
    let lb = sb.unicode_len();
    let mut i: usize = 0;
    assert(a@.skip(0) =~= a@ && b@.skip(0) =~= b@);
    while i < la && i < lb
        invariant
            la == a@.len(),
            lb == b@.len(),
            sa@ == a@,
            sb@ == b@,
            i <= la,
            i <= lb,
            text_le(a@, b@) == text_le(a@.skip(i as int), b@.skip(i as int)),
        decreases la - i,
    {
        let ca = sa.get_char(i);
        let cb = sb.get_char(i);
        assert(a@.skip(i as int)[0] == ca && b@.skip(i as int)[0] == cb);
        if (ca as u32) < (cb as u32) {
            return true;
        }
        if (ca as u32) > (cb as u32) {
            return false;
        }
        assert(a@.skip(i as int).drop_first() =~= a@.skip(i + 1));
        assert(b@.skip(i as int).drop_first() =~= b@.skip(i + 1));
        i = i + 1;
    }
    i == la
}

/// Sorts strings by character code.
pub fn sort_texts(v: &Vec<String>) -> (r: Vec<String>)
    ensures
        texts(r@) == texts(v@).sort_by(text_order()),
{
    broadcast use vstd::seq_lib::group_to_multiset_ensures;

    proof {
        lemma_text_order_total();
    }
    let ghost le = text_order();
    let mut out: Vec<String> = Vec::new();
    let mut k: usize = 0;
    while k < v.len()
        invariant
            k <= v@.len(),
            le == text_order(),
            total_ordering(le),
            sorted_by(texts(out@), le),
            texts(out@).to_multiset() == texts(v@).take(k as int).to_multiset(),
        decreases v@.len() - k,
    {
        let e = v[k].clone();
        let mut p: usize = 0;
        while p < out.len() && text_le_exec(&out[p], &e)
            invariant
                p <= out@.len(),
                forall|q: int| 0 <= q < p ==> text_le(out@[q]@, e@),
            decreases out@.len() - p,
        {
            p = p + 1;
        }
        let ghost before = texts(out@);
        let ghost ev = e@;
        out.insert(p, e);
        proof {
            assert(texts(out@) =~= before.insert(p as int, ev));
            assert forall|i: int, j: int| 0 <= i < j < texts(out@).len() implies #[trigger] le(texts(out@)[i], texts(out@)[j]) by {
                let t = texts(out@);
                if j < p {
                    assert(t[i] == before[i] && t[j] == before[j]);
                } else if j == p {
                    assert(t[i] == before[i]);
                } else if i == p {
                    // e is not before old[p] ... old[j - 1]
                    assert(!text_le(before[p as int], ev));
                    lemma_text_le_total(before[p as int], ev);
                    if p < j - 1 {
                        assert(le(before[p as int], before[j - 1]));
                        lemma_text_le_transitive(ev, before[p as int], before[j - 1]);
                    }
                } else if i < p {
                    assert(t[i] == before[i] && t[j] == before[j - 1]);
                    assert(le(before[i], before[j - 1]));
                } else {
                    assert(t[i] == before[i - 1] && t[j] == before[j - 1]);
                }
            }
            assert(texts(v@).take(k + 1) =~= texts(v@).take(k as int).push(ev));
            let pre = texts(v@).take(k as int);
            assert(ev == texts(v@)[k as int]);
            assert(pre.push(ev) =~= pre.insert(pre.len() as int, ev));
            vstd::seq_lib::to_multiset_insert(pre, pre.len() as int, ev);
            vstd::seq_lib::to_multiset_insert(before, p as int, ev);
            assert(pre.push(ev).to_multiset() == pre.to_multiset().insert(ev));
            assert(texts(out@).to_multiset() == before.to_multiset().insert(ev));
        }
        k = k + 1;
    }
    proof {
        assert(texts(v@).take(v@.len() as int) =~= texts(v@));
        texts(v@).lemma_sort_by_ensures(le);
        vstd::seq_lib::lemma_sorted_unique(texts(out@), texts(v@).sort_by(le), le);
    }
    out
}

// ----- numerals read back -----

/// The value of the digit `c`: `0`-`9`, then `A`-`F` or `a`-`f` for 10 to 15; -1 for any
/// other character.
pub open spec fn digit_value(c: char) -> int {
    let n = c as int;
    if ('0' as int) <= n <= ('9' as int) {
        n - ('0' as int)
    } else if ('A' as int) <= n <= ('F' as int) {
        n - ('A' as int) + 10
    } else if ('a' as int) <= n <= ('f' as int) {
        n - ('a' as int) + 10
    } else {
        -1
    }
}

/// Whether `c` is one of the letters `a`-`f`.
pub open spec fn is_lower_letter_digit(c: char) -> bool {
    ('a' as int) <= (c as int) <= ('f' as int)
}

/// Whether `c` is one of the letters `A`-`F`.
pub open spec fn is_upper_letter_digit(c: char) -> bool {
    ('A' as int) <= (c as int) <= ('F' as int)
}

/// The number that the numeral `s` in base `b` stands for, most significant digit first.
pub open spec fn numeral_value(s: Seq<char>, b: int) -> int
    decreases s.len(),
{
    if s.len() == 0 {
        0
    } else {
        numeral_value(s.drop_last(), b) * b + digit_value(s.last())
    }
}

proof fn lemma_hex_char_value(d: nat, upper: bool)
    requires
        d < 16,
    ensures
        digit_value(hex_char(d, upper)) == d,
        upper ==> !is_lower_letter_digit(hex_char(d, upper)),
        !upper ==> !is_upper_letter_digit(hex_char(d, upper)),
{
}

/// The hexadecimal digits of a number read back as that number: `hex_digits(v, width, upper)`
/// is a numeral in base 16 for `v` modulo `16^width`, each of its characters a digit, its
/// letters in the case asked for.
pub proof fn law_hex_digits_read_back(v: nat, width: nat, upper: bool)
    ensures
        numeral_value(hex_digits(v, width, upper), 16) == (v as int) % pow(16, width),
        forall|i: int|
            0 <= i < width ==> {
                let c = #[trigger] hex_digits(v, width, upper)[i];
                &&& 0 <= digit_value(c) < 16
                &&& upper ==> !is_lower_letter_digit(c)
                &&& !upper ==> !is_upper_letter_digit(c)
            },
    decreases width,
{
    lemma_hex_digits_len(v, width, upper);
    if width > 0 {
        let w1 = (width - 1) as nat;
        law_hex_digits_read_back(v / 16, w1, upper);
        lemma_hex_digits_len(v / 16, w1, upper);
        let s = hex_digits(v, width, upper);
        let t = hex_digits(v / 16, w1, upper);
        assert(s.drop_last() =~= t);
        lemma_hex_char_value(v % 16, upper);
        lemma_pow_positive(16, w1);
        lemma_mod_breakdown(v as int, 16, pow(16, w1));
        assert(pow(16, width) == 16 * pow(16, w1)) by {
            reveal(pow);
        }
        assert forall|i: int| 0 <= i < width implies {
            let c = #[trigger] hex_digits(v, width, upper)[i];
            &&& 0 <= digit_value(c) < 16
            &&& upper ==> !is_lower_letter_digit(c)
            &&& !upper ==> !is_upper_letter_digit(c)
        } by {
            if i < w1 {
                assert(s[i] == t[i]);
            }
        }
    } else {
        assert(pow(16, 0) == 1) by {
            reveal(pow);
        }
    }
}

/// A decimal numeral reads back as its number, and has no leading zero: `decimal(n)` is a
/// numeral in base 10 for `n` whose characters are all digits `0`-`9`, and whose first
/// character is `0` only for `n == 0`.
pub proof fn law_decimal_read_back(n: nat)
    ensures
        numeral_value(decimal(n), 10) == n,
        forall|i: int| 0 <= i < decimal(n).len() ==> 0 <= #[trigger] digit_value(decimal(n)[i]) < 10,
        decimal(n)[0] == '0' <==> n == 0,
    decreases n,
{
    lemma_decimal_len(n);
    if n < 10 {
        lemma_hex_char_value(n, true);
        assert(decimal(n).drop_last() =~= Seq::<char>::empty());
        assert(decimal(n).last() == hex_char(n, true));
        assert(numeral_value(decimal(n), 10) == numeral_value(Seq::<char>::empty(), 10) * 10 + digit_value(
            hex_char(n, true),
        ));
    } else {
        law_decimal_read_back(n / 10);
        lemma_decimal_len(n / 10);
        let s = decimal(n);
        let t = decimal(n / 10);
        assert(s.drop_last() =~= t);
        lemma_hex_char_value(n % 10, true);
        assert(s.last() == hex_char(n % 10, true));
        assert(numeral_value(s, 10) == numeral_value(t, 10) * 10 + digit_value(hex_char(n % 10, true)));
        assert forall|i: int| 0 <= i < s.len() implies 0 <= #[trigger] digit_value(s[i]) < 10 by {
            if i < t.len() {
                assert(s[i] == t[i]);
            }
        }
        assert(s[0] == t[0]);
    }
}

} // verus!
