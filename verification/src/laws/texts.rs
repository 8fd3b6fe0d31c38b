//! What the texts and numerals of the library mean.
use vstd::prelude::*;
use vstd::utf8::encode_utf8;

use crate::json::JsonView;
use crate::number::NumberView;
use crate::text::{begins_with, byte_len, decimal, digit, hexadecimal, joined, quotes_escaped, signed_decimal};
use crate::text::text_less;
use crate::wire::scalar_text;

verus! {

// ---------------------------------------------------------------------------
// Order
// ---------------------------------------------------------------------------

/// Of two texts that agree up to some place, the one that ends there, or has
/// the smaller character there, comes before the other.
pub proof fn lemma_first_difference_decides(a: Seq<char>, b: Seq<char>, n: int)
    requires
        0 <= n <= a.len(),
        n < b.len(),
        a.take(n) == b.take(n),
        n == a.len() || a[n] < b[n],
    ensures
        text_less(a, b),
    decreases n,
{
    if n > 0 {
        assert(a[0] == a.take(n)[0]);
        assert(b[0] == b.take(n)[0]);
        let ra = a.drop_first();
        let rb = b.drop_first();
        assert(ra.take(n - 1) =~= a.take(n).drop_first());
        assert(rb.take(n - 1) =~= b.take(n).drop_first());
        lemma_first_difference_decides(ra, rb, n - 1);
    }
}

/// A text begins with exactly those texts that something can be put behind to make it.
pub proof fn lemma_begins_with(s: Seq<char>, prefix: Seq<char>)
    ensures
        begins_with(s, prefix) <==> exists|rest: Seq<char>| s == #[trigger] (prefix + rest),
        begins_with(s, prefix) ==> s == prefix + s.skip(prefix.len() as int),
{
    if begins_with(s, prefix) {
        assert(s =~= prefix + s.skip(prefix.len() as int));
    }
    if exists|rest: Seq<char>| s == #[trigger] (prefix + rest) {
        let rest = choose|rest: Seq<char>| s == #[trigger] (prefix + rest);
        assert(s.take(prefix.len() as int) =~= prefix);
    }
}

// ---------------------------------------------------------------------------
// Joining and quoting
// ---------------------------------------------------------------------------

/// One text joined is that text, and none is the empty text.
pub proof fn lemma_joined_one(part: Seq<char>, sep: Seq<char>)
    ensures
        joined(seq![part], sep) == part,
        joined(Seq::empty(), sep).len() == 0,
{
}

/// Two lists joined one after the other have the separator between them, and nothing else.
pub proof fn lemma_joined_splits(a: Seq<Seq<char>>, b: Seq<Seq<char>>, sep: Seq<char>)
    requires
        a.len() > 0,
        b.len() > 0,
    ensures
        joined(a + b, sep) == joined(a, sep) + sep + joined(b, sep),
    decreases b.len(),
{
    assert((a + b).last() == b.last());
    if b.len() == 1 {
        assert((a + b).drop_last() =~= a);
    } else {
        let rest = b.drop_last();
        lemma_joined_splits(a, rest, sep);
        assert((a + b).drop_last() =~= a + rest);
        assert(joined(a, sep) + sep + joined(rest, sep) + sep + b.last() =~= joined(a, sep) + sep + (joined(rest, sep)
            + sep + b.last()));
    }
}

/// Escaping puts a backslash before each quotation mark, leaves every other
/// character as it is, and goes character by character.
pub proof fn lemma_escaping(a: Seq<char>, b: Seq<char>, c: char)
    ensures
        quotes_escaped(seq![c]) == if c == '"' {
            seq!['\\', '"']
        } else {
            seq![c]
        },
        quotes_escaped(Seq::empty()).len() == 0,
        quotes_escaped(a + b) == quotes_escaped(a) + quotes_escaped(b),
    decreases b.len(),
{
    let one = seq![c];
    assert(one.drop_last() =~= Seq::empty());
    assert(quotes_escaped(Seq::<char>::empty()) =~= Seq::empty());
    assert(quotes_escaped(one) =~= if c == '"' {
        seq!['\\', '"']
    } else {
        seq![c]
    });
    if b.len() == 0 {
        assert(a + b =~= a);
        assert(quotes_escaped(b) =~= Seq::empty());
        assert(quotes_escaped(a) + quotes_escaped(b) =~= quotes_escaped(a));
    } else {
        lemma_escaping(a, b.drop_last(), c);
        assert((a + b).drop_last() =~= a + b.drop_last());
        assert((a + b).last() == b.last());
        assert(quotes_escaped(a + b) =~= quotes_escaped(a) + quotes_escaped(b));
    }
}

// ---------------------------------------------------------------------------
// Numerals
// ---------------------------------------------------------------------------

/// The number of an ASCII digit, or of one of the letters `a` to `f`.
pub open spec fn digit_value(c: char) -> int {
    if '0' <= c && c <= '9' {
        c as int - '0' as int
    } else {
        c as int - 'a' as int + 10
    }
}

/// The number that a numeral stands for.
pub open spec fn numeral_value(s: Seq<char>, base: int) -> int
    decreases s.len(),
{
    if s.len() == 0 {
        0
    } else {
        numeral_value(s.drop_last(), base) * base + digit_value(s.last())
    }
}

proof fn lemma_digit(d: nat)
    requires
        d < 16,
    ensures
        digit_value(digit(d)) == d,
        d < 10 ==> '0' <= digit(d) && digit(d) <= '9',
        d >= 10 ==> 'a' <= digit(d) && digit(d) <= 'f',
        digit(d) == '0' <==> d == 0,
{
}

/// A decimal numeral stands for its number, is made of digits, and has no zero in front.
pub proof fn lemma_decimal_means_its_number(n: nat)
    ensures
        decimal(n).len() > 0,
        numeral_value(decimal(n), 10) == n,
        forall|i: int| 0 <= i < decimal(n).len() ==> '0' <= #[trigger] decimal(n)[i] && decimal(n)[i] <= '9',
        decimal(n).len() > 1 ==> decimal(n)[0] != '0',
    decreases n,
{
    reveal_with_fuel(numeral_value, 2);
    lemma_digit(n % 10);
    if n >= 10 {
        lemma_decimal_means_its_number(n / 10);
        let front = decimal(n / 10);
        let all = decimal(n);
        assert(all.drop_last() =~= front);
        assert forall|i: int| 0 <= i < all.len() implies '0' <= #[trigger] all[i] && all[i] <= '9' by {
            if i < front.len() {
                assert(all[i] == front[i]);
            }
        }
        assert(all[0] == front[0]);
        if front.len() == 1 {
            assert(front.drop_last() =~= Seq::empty());
            assert(numeral_value(front, 10) == digit_value(front[0]));
        }
    } else {
        assert(decimal(n).drop_last() =~= Seq::empty());
    }
}

/// A signed numeral is the decimal numeral of the size, behind a minus sign exactly if the number is negative.
pub proof fn lemma_signed_decimal(n: int)
    ensures
        n >= 0 ==> signed_decimal(n) == decimal(n as nat),
        n < 0 ==> signed_decimal(n).len() > 0 && signed_decimal(n)[0] == '-' && signed_decimal(n).drop_first()
            == decimal((-n) as nat),
{
    if n < 0 {
        assert(signed_decimal(n).drop_first() =~= decimal((-n) as nat));
    }
}

/// A hexadecimal numeral has as many digits as asked for, lower-case ones, and
/// stands for its number up to the places that it has.
pub proof fn lemma_hexadecimal_means_its_number(n: nat, width: nat)
    ensures
        hexadecimal(n, width).len() == width,
        forall|i: int|
            0 <= i < width ==> ('0' <= #[trigger] hexadecimal(n, width)[i] && hexadecimal(n, width)[i] <= '9') || ('a'
                <= hexadecimal(n, width)[i] && hexadecimal(n, width)[i] <= 'f'),
        n < crate::sse::pow16(width) ==> numeral_value(hexadecimal(n, width), 16) == n,
    decreases width,
{
    if width > 0 {
        let w = (width - 1) as nat;
        lemma_digit(n % 16);
        lemma_hexadecimal_means_its_number(n / 16, w);
        let front = hexadecimal(n / 16, w);
        let all = hexadecimal(n, width);
        assert(all.drop_last() =~= front);
        assert forall|i: int| 0 <= i < width implies ('0' <= #[trigger] all[i] && all[i] <= '9') || ('a' <= all[i]
            && all[i] <= 'f') by {
            if i < front.len() {
                assert(all[i] == front[i]);
            }
        }
    }
}

/// The size of a text in bytes is that of its UTF-8 encoding.
pub proof fn lemma_byte_len(s: Seq<char>)
    requires
        encode_utf8(s).len() <= usize::MAX,
    ensures
        byte_len(s) == encode_utf8(s).len(),
{
}

/// The texts of `null`, the booleans and the integers.
pub proof fn lemma_scalar_text(v: JsonView)
    ensures
        v is Null ==> scalar_text(v) == Some("null"@),
        v == JsonView::Bool(true) ==> scalar_text(v) == Some("true"@),
        v == JsonView::Bool(false) ==> scalar_text(v) == Some("false"@),
        v matches JsonView::Num(NumberView::PosInt(n)) ==> {
            &&& scalar_text(v) is Some
            &&& numeral_value(scalar_text(v)->0, 10) == n
            &&& forall|i: int| 0 <= i < (scalar_text(v)->0).len() ==> '0' <= #[trigger] (scalar_text(v)->0)[i]
        },
        v matches JsonView::Num(NumberView::NegInt(n)) ==> {
            &&& scalar_text(v) is Some
            &&& n < 0 ==> (scalar_text(v)->0)[0] == '-' && numeral_value((scalar_text(v)->0).drop_first(), 10) == -n
        },
{
    if let JsonView::Num(NumberView::PosInt(n)) = v {
        lemma_decimal_means_its_number(n as nat);
    }
    if let JsonView::Num(NumberView::NegInt(n)) = v {
        lemma_signed_decimal(n as int);
        if n < 0 {
            lemma_decimal_means_its_number((-n) as nat);
        }
    }
}

} // verus!
