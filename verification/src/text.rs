//! Character-level text operations with exact contracts.
use vstd::prelude::*;
use vstd::string::*;
use vstd::std_specs::iter::IteratorSpec;
use vstd::utf8::encode_utf8;

verus! {

/// `String::push` appends one character to the end of the string.
pub assume_specification[ std::string::String::push ](s: &mut std::string::String, c: char)
    ensures
        final(s)@ == old(s)@.push(c),
;

// ---------------------------------------------------------------------------
// Order
// ---------------------------------------------------------------------------

/// Strict lexicographic order by code point.
pub open spec fn text_less(a: Seq<char>, b: Seq<char>) -> bool
    decreases a.len(),
{
    if b.len() == 0 {
        false
    } else if a.len() == 0 {
        true
    } else if a[0] != b[0] {
        a[0] < b[0]
    } else {
        text_less(a.drop_first(), b.drop_first())
    }
}

/// How two texts stand to each other in [`text_less`] order.
#[derive(Clone, Copy, Debug, PartialEq, Eq)]
pub enum Position {
    Before,
    Same,
    After,
}

pub proof fn lemma_text_less_irreflexive(a: Seq<char>)
    ensures
        !text_less(a, a),
    decreases a.len(),
{
    if a.len() > 0 {
        lemma_text_less_irreflexive(a.drop_first());
    }
}

pub proof fn lemma_text_less_transitive(a: Seq<char>, b: Seq<char>, c: Seq<char>)
    requires
        text_less(a, b),
        text_less(b, c),
    ensures
        text_less(a, c),
    decreases a.len(),
{
    if a.len() > 0 && a[0] == b[0] && b[0] == c[0] {
        lemma_text_less_transitive(a.drop_first(), b.drop_first(), c.drop_first());
    }
}

/// Any two different texts are ordered one way or the other.
pub proof fn lemma_text_less_total(a: Seq<char>, b: Seq<char>)
    ensures
        a == b || text_less(a, b) || text_less(b, a),
    decreases a.len(),
{
    if a.len() > 0 && b.len() > 0 && a[0] == b[0] {
        lemma_text_less_total(a.drop_first(), b.drop_first());
        if a.drop_first() == b.drop_first() {
            assert(a =~= seq![a[0]] + a.drop_first());
            assert(b =~= seq![b[0]] + b.drop_first());
        }
    } else if a.len() == 0 && b.len() == 0 {
        assert(a =~= b);
    }
}

/// Compares two texts by code point.
pub fn order_text(a: &str, b: &str) -> (r: Position)
    ensures
        r == Position::Before <==> text_less(a@, b@),
        r == Position::Same <==> a@ == b@,
        r == Position::After <==> text_less(b@, a@),
{
    let mut xs = a.chars();
    let mut ys = b.chars();
    let ghost mut k: int = 0;
    loop
        invariant
            0 <= k <= a@.len(),
            k <= b@.len(),
            xs.obeys_prophetic_iter_laws(),
            ys.obeys_prophetic_iter_laws(),
            xs.remaining() == a@.skip(k),
            ys.remaining() == b@.skip(k),
            a@ == b@ <==> a@.skip(k) == b@.skip(k),
            text_less(a@, b@) <==> text_less(a@.skip(k), b@.skip(k)),
            text_less(b@, a@) <==> text_less(b@.skip(k), a@.skip(k)),
        decreases a@.len() - k,
    {
        let ghost ra = a@.skip(k);
        let ghost rb = b@.skip(k);
        let x = xs.next();
        let y = ys.next();
        match (x, y) {
            (None, None) => {
                assert(ra =~= rb);
                return Position::Same;
            },
            (None, Some(_)) => {
                return Position::Before;
            },
            (Some(_), None) => {
                return Position::After;
            },
            (Some(c), Some(d)) => {
                if c < d {
                    return Position::Before;
                }
                if d < c {
                    return Position::After;
                }
                proof {
                    assert(a@.skip(k + 1) =~= ra.drop_first());
                    assert(b@.skip(k + 1) =~= rb.drop_first());
                    if ra.drop_first() == rb.drop_first() {
                        assert(ra =~= seq![c] + ra.drop_first());
                        assert(rb =~= seq![c] + rb.drop_first());
                    }
                    k = k + 1;
                }
            },
        }
    }
}

/// Whether two texts are equal.
pub fn same_text(a: &str, b: &str) -> (r: bool)
    ensures
        r == (a@ == b@),
{
    matches!(order_text(a, b), Position::Same)
}

// ---------------------------------------------------------------------------
// Building
// ---------------------------------------------------------------------------

/// The texts of `parts` with `sep` between neighbours.
pub open spec fn joined(parts: Seq<Seq<char>>, sep: Seq<char>) -> Seq<char>
    decreases parts.len(),
{
    if parts.len() == 0 {
        Seq::empty()
    } else if parts.len() == 1 {
        parts[0]
    } else {
        joined(parts.drop_last(), sep) + sep + parts.last()
    }
}

/// The texts held by a vector of strings.
pub open spec fn texts(parts: Seq<String>) -> Seq<Seq<char>> {
    parts.map_values(|s: String| s@)
}

/// Whether `s` is one of `parts`.
pub fn contains_text(parts: &Vec<String>, s: &str) -> (r: bool)
    ensures
        r == texts(parts@).contains(s@),
{
    let mut i: usize = 0;
    while i < parts.len()
        invariant
            i <= parts.len(),
            forall|j: int| 0 <= j < i ==> texts(parts@)[j] != s@,
        decreases parts.len() - i,
    {
        if same_text(parts[i].as_str(), s) {
            assert(texts(parts@)[i as int] == s@);
            return true;
        }
        i = i + 1;
    }
    false
}

/// Joins `parts` with `sep` between neighbours.
pub fn join(parts: &Vec<String>, sep: &str) -> (r: String)
    ensures
        r@ == joined(texts(parts@), sep@),
{
    let mut out = String::new();
    let mut i: usize = 0;
    let ghost all = texts(parts@);
    assert(all.take(0) =~= Seq::<Seq<char>>::empty());
    while i < parts.len()
        invariant
            i <= parts.len(),
            all == texts(parts@),
            out@ == joined(all.take(i as int), sep@),
        decreases parts.len() - i,
    {
        if i > 0 {
            out.append(sep);
        }
        out.append(parts[i].as_str());
        proof {
            assert(all.take(i + 1).drop_last() =~= all.take(i as int));
        }
        i = i + 1;
    }
    assert(all.take(i as int) =~= all);
    out
}

/// Puts three texts one after the other.
pub fn concat3(a: &str, b: &str, c: &str) -> (r: String)
    ensures
        r@ == a@ + b@ + c@,
{
    let mut out = a.to_owned();
    out.append(b);
    out.append(c);
    out
}

/// The text with every `"` preceded by a backslash.
pub open spec fn quotes_escaped(s: Seq<char>) -> Seq<char>
    decreases s.len(),
{
    if s.len() == 0 {
        Seq::empty()
    } else if s.last() == '"' {
        quotes_escaped(s.drop_last()).push('\\').push('"')
    } else {
        quotes_escaped(s.drop_last()).push(s.last())
    }
}

/// Puts a backslash before every `"`.
pub fn escape_quotes(s: &str) -> (r: String)
    ensures
        r@ == quotes_escaped(s@),
{
    let mut out = String::new();
    let mut rest = s.chars();
    let ghost mut k: int = 0;
    assert(s@.take(0) =~= Seq::<char>::empty());
    loop
        invariant
            0 <= k <= s@.len(),
            rest.obeys_prophetic_iter_laws(),
            rest.remaining() == s@.skip(k),
            out@ == quotes_escaped(s@.take(k)),
        decreases s@.len() - k,
    {
        match rest.next() {
            None => {
                assert(s@.take(k) =~= s@);
                return out;
            },
            Some(c) => {
                if c == '"' {
                    out.push('\\');
                }
                out.push(c);
                proof {
                    assert(s@.take(k + 1).drop_last() =~= s@.take(k));
                    assert(s@.skip(k).drop_first() =~= s@.skip(k + 1));
                    k = k + 1;
                }
            },
        }
    }
}

/// Whether `c` occurs in `s`.
pub fn has_char(s: &str, c: char) -> (r: bool)
    ensures
        r == s@.contains(c),
{
    let mut rest = s.chars();
    let ghost mut k: int = 0;
    loop
        invariant
            0 <= k <= s@.len(),
            rest.obeys_prophetic_iter_laws(),
            rest.remaining() == s@.skip(k),
            forall|j: int| 0 <= j < k ==> s@[j] != c,
        decreases s@.len() - k,
    {
        match rest.next() {
            None => {
                return false;
            },
            Some(d) => {
                if d == c {
                    assert(s@[k] == c);
                    return true;
                }
                proof {
                    assert(s@.skip(k).drop_first() =~= s@.skip(k + 1));
                    k = k + 1;
                }
            },
        }
    }
}

/// The first `n` characters of `s`, or all of them if there are fewer.
pub fn take_chars(s: &str, n: usize) -> (r: String)
    ensures
        r@ == if s@.len() <= n { s@ } else { s@.take(n as int) },
{
    let mut out = String::new();
    let mut rest = s.chars();
    let mut k: usize = 0;
    assert(s@.take(0) =~= Seq::<char>::empty());
    while k < n
        invariant
            k <= n,
            k <= s@.len(),
            rest.obeys_prophetic_iter_laws(),
            rest.remaining() == s@.skip(k as int),
            out@ == s@.take(k as int),
        decreases n - k,
    {
        match rest.next() {
            None => {
                assert(s@.take(k as int) =~= s@);
                return out;
            },
            Some(c) => {
                out.push(c);
                assert(s@.take(k + 1) =~= s@.take(k as int).push(c));
                assert(s@.skip(k as int).drop_first() =~= s@.skip(k + 1));
                k = k + 1;
            },
        }
    }
    assert(s@.len() == n ==> s@.take(n as int) =~= s@);
    out
}

/// Whether `s` begins with `prefix`.
pub open spec fn begins_with(s: Seq<char>, prefix: Seq<char>) -> bool {
    prefix.len() <= s.len() && s.take(prefix.len() as int) == prefix
}

/// What follows `prefix` in `s`, where `s` begins with it.
pub fn after_prefix(s: &str, prefix: &str) -> (r: Option<String>)
    ensures
        match r {
            Some(rest) => begins_with(s@, prefix@) && rest@ == s@.skip(prefix@.len() as int),
            None => !begins_with(s@, prefix@),
        },
{
    let mut rest = s.chars();
    let mut wanted = prefix.chars();
    let ghost mut k: int = 0;
    loop
        invariant_except_break
            rest.obeys_prophetic_iter_laws(),
            rest.remaining() == s@.skip(k),
            wanted.obeys_prophetic_iter_laws(),
            wanted.remaining() == prefix@.skip(k),
        invariant
            0 <= k <= s@.len(),
            k <= prefix@.len(),
            forall|j: int| 0 <= j < k ==> s@[j] == prefix@[j],
        ensures
            k == prefix@.len(),
            rest.obeys_prophetic_iter_laws(),
            rest.remaining() == s@.skip(k),
        decreases prefix@.len() - k,
    {
        match wanted.next() {
            None => {
                break;
            },
            Some(p) => {
                assert(p == prefix@[k]);
                match rest.next() {
                    None => {
                        return None;
                    },
                    Some(c) => {
                        assert(c == s@[k]);
                        if c != p {
                            proof {
                                if begins_with(s@, prefix@) {
                                    assert(s@.take(prefix@.len() as int)[k] == s@[k]);
                                }
                            }
                            return None;
                        }
                        proof {
                            assert(s@.skip(k).drop_first() =~= s@.skip(k + 1));
                            assert(prefix@.skip(k).drop_first() =~= prefix@.skip(k + 1));
                            k = k + 1;
                        }
                    },
                }
            },
        }
    }
    assert(s@.take(prefix@.len() as int) =~= prefix@);
    let mut out = String::new();
    assert(out@ =~= s@.subrange(prefix@.len() as int, k));
    loop
        invariant
            prefix@.len() <= k <= s@.len(),
            begins_with(s@, prefix@),
            rest.obeys_prophetic_iter_laws(),
            rest.remaining() == s@.skip(k),
            out@ == s@.subrange(prefix@.len() as int, k),
        decreases s@.len() - k,
    {
        match rest.next() {
            None => {
                assert(out@ =~= s@.skip(prefix@.len() as int));
                return Some(out);
            },
            Some(c) => {
                out.push(c);
                proof {
                    assert(s@.skip(k).drop_first() =~= s@.skip(k + 1));
                    assert(out@ =~= s@.subrange(prefix@.len() as int, k + 1));
                    k = k + 1;
                }
            },
        }
    }
}

// ---------------------------------------------------------------------------
// Numerals
// ---------------------------------------------------------------------------

/// The numeral of one digit below sixteen.
pub open spec fn digit(d: nat) -> char {
    if d < 10 {
        (48 + d) as char
    } else {
        (87 + d) as char
    }
}

/// The decimal numeral of `n`.
pub open spec fn decimal(n: nat) -> Seq<char>
    decreases n,
{
    if n < 10 {
        seq![digit(n)]
    } else {
        decimal(n / 10).push(digit(n % 10))
    }
}

/// The decimal numeral of a number that may be negative.
pub open spec fn signed_decimal(n: int) -> Seq<char> {
    if n < 0 {
        seq!['-'] + decimal((-n) as nat)
    } else {
        decimal(n as nat)
    }
}

/// The last `width` lower-case hexadecimal digits of `n`, with leading zeros.
pub open spec fn hexadecimal(n: nat, width: nat) -> Seq<char>
    decreases width,
{
    if width == 0 {
        Seq::empty()
    } else {
        hexadecimal(n / 16, (width - 1) as nat).push(digit(n % 16))
    }
}

fn digit_char(d: u64) -> (c: char)
    requires
        d < 16,
    ensures
        c == digit(d as nat),
{
    if d < 10 {
        (48u8 + d as u8) as char
    } else {
        (87u8 + d as u8) as char
    }
}

/// Writes `n` in decimal.
pub fn decimal_text(n: u64) -> (r: String)
    ensures
        r@ == decimal(n as nat),
    decreases n,
{
    if n < 10 {
        let mut out = String::new();
        out.push(digit_char(n));
        assert(out@ =~= seq![digit(n as nat)]);
        out
    } else {
        let mut out = decimal_text(n / 10);
        out.push(digit_char(n % 10));
        out
    }
}

/// Writes `n` in decimal, with a minus sign where it is negative.
pub fn signed_decimal_text(n: i64) -> (r: String)
    ensures
        r@ == signed_decimal(n as int),
{
    if n < 0 {
        let magnitude: u64 = (-(n + 1)) as u64 + 1;
        let mut out = String::new();
        out.push('-');
        out.append(decimal_text(magnitude).as_str());
        assert(out@ =~= signed_decimal(n as int));
        out
    } else {
        decimal_text(n as u64)
    }
}

/// Writes the last `width` hexadecimal digits of `n`.
pub fn hexadecimal_text(n: u64, width: u64) -> (r: String)
    ensures
        r@ == hexadecimal(n as nat, width as nat),
    decreases width,
{
    if width == 0 {
        String::new()
    } else {
        let mut out = hexadecimal_text(n / 16, width - 1);
        out.push(digit_char(n % 16));
        out
    }
}

/// The number of bytes of a text in UTF-8.
pub open spec fn byte_len(s: Seq<char>) -> usize {
    encode_utf8(s).len() as usize
}

/// Counts the bytes of a text in UTF-8.
pub fn byte_count(s: &str) -> (r: usize)
    ensures
        r == byte_len(s@),
{
    s.len()
}

} // verus!
