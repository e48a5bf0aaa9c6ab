//! Conversions between strings and sequences of characters.
//!
//! The rest of the crate reasons about text as `Seq<char>`; the functions
//! here move between `&str`/`String` and `Vec<char>` with exact contracts.

use vstd::prelude::*;
use vstd::string::StringExecFns;

verus! {

/// Specification of `String::push`: the character is appended to the end of
/// the string. Taken on trust from the standard library's documentation.
pub assume_specification[ String::push ](s: &mut String, c: char)
    ensures
        final(s)@ == old(s)@.push(c),
;

/// Specification of `==` on string slices: two slices are equal where they
/// hold the same characters. Taken on trust from the standard library's
/// documentation.
pub assume_specification[ <str as PartialEq>::eq ](a: &str, b: &str) -> (same: bool)
    ensures
        same == (a@ == b@),
;

/// The characters of `text`, in order.
pub fn to_chars(text: &str) -> (out: Vec<char>)
    ensures
        out@ == text@,
{
    let mut out: Vec<char> = Vec::new();
    let chars = text.chars();
    for c in it: chars
        invariant
            it.seq() == text@,
            out@ == it.seq().take(it.index()),
    {
        out.push(c);
        assert(it.seq().take(it.index() + 1) =~= it.seq().take(it.index()).push(c));
    }
    assert(out@ =~= text@);
    out
}

/// Appends `chars[from..to]` to `out`.
pub fn append_chars(out: &mut String, chars: &Vec<char>, from: usize, to: usize)
    requires
        from <= to <= chars.len(),
    ensures
        final(out)@ == old(out)@ + chars@.subrange(from as int, to as int),
{
    let ghost before = out@;
    let mut i: usize = from;
    assert(out@ =~= before + chars@.subrange(from as int, i as int));
    while i < to
        invariant
            from <= i <= to <= chars.len(),
            out@ == before + chars@.subrange(from as int, i as int),
        decreases to - i,
    {
        out.push(chars[i]);
        assert(before + chars@.subrange(from as int, i + 1) =~= (before + chars@.subrange(
            from as int,
            i as int,
        )).push(chars@[i as int]));
        i += 1;
    }
}

/// The string made of `chars[from..to]`.
pub fn string_of(chars: &Vec<char>, from: usize, to: usize) -> (out: String)
    requires
        from <= to <= chars.len(),
    ensures
        out@ == chars@.subrange(from as int, to as int),
{
    let mut out = String::new();
    append_chars(&mut out, chars, from, to);
    assert(out@ =~= chars@.subrange(from as int, to as int));
    out
}

/// `parts` in one text, with `sep` between each two neighbours.
pub open spec fn joined(parts: Seq<Seq<char>>, sep: Seq<char>) -> Seq<char>
    decreases parts.len(),
{
    if parts.len() == 0 {
        Seq::empty()
    } else if parts.len() == 1 {
        parts[0]
    } else {
        joined(parts.drop_last(), sep) + sep + parts.last()
    }
}

/// Joining with a part in front: the part, `sep`, and the rest joined.
pub proof fn lemma_joined_front(first: Seq<char>, rest: Seq<Seq<char>>, sep: Seq<char>)
    requires
        rest.len() > 0,
    ensures
        joined(seq![first] + rest, sep) == first + sep + joined(rest, sep),
    decreases rest.len(),
{
    let all = seq![first] + rest;
    assert(all.drop_last() =~= seq![first] + rest.drop_last());
    assert(all.last() == rest.last());
    if rest.len() == 1 {
        assert(all.drop_last() =~= seq![first]);
        assert(joined(all.drop_last(), sep) == first);
    } else {
        lemma_joined_front(first, rest.drop_last(), sep);
        assert(joined(all, sep) =~= first + sep + joined(rest, sep));
    }
}

/// `parts` in one string, with `sep` between each two neighbours.
pub fn join_with(parts: &Vec<String>, sep: &str) -> (text: String)
    ensures
        text@ == joined(parts.deep_view(), sep@),
{
    let mut text = String::new();
    let ghost all = parts.deep_view();
    let mut i: usize = 0;
    assert(all.take(0) =~= Seq::<Seq<char>>::empty());
    while i < parts.len()
        invariant
            i <= parts.len(),
            all == parts.deep_view(),
            text@ == joined(all.take(i as int), sep@),
        decreases parts.len() - i,
    {
        let ghost before = text@;
        if i > 0 {
            text.append(sep);
        }
        text.append(parts[i].as_str());
        proof {
            let now = all.take(i + 1);
            assert(now.drop_last() =~= all.take(i as int));
            assert(now.last() == parts[i as int]@);
            if i == 0 {
                assert(text@ =~= now[0]);
            }
        }
        i += 1;
    }
    assert(all.take(parts.len() as int) =~= all);
    text
}

/// The decimal digit for a value below ten.
pub open spec fn digit(value: nat) -> char {
    (48 + value) as char
}

/// `value` in decimal, without leading zeros.
pub open spec fn decimal(value: nat) -> Seq<char>
    decreases value,
{
    if value < 10 {
        seq![digit(value)]
    } else {
        decimal(value / 10).push(digit(value % 10))
    }
}

/// A number in decimal has at least one character, and only digits.
pub proof fn lemma_decimal_digits(value: nat)
    ensures
        decimal(value).len() >= 1,
        forall|i: int|
            0 <= i < decimal(value).len() ==> '0' <= #[trigger] decimal(value)[i] <= '9',
    decreases value,
{
    if value >= 10 {
        lemma_decimal_digits(value / 10);
    }
}

/// Different numbers are written differently.
pub proof fn lemma_decimal_injective(a: nat, b: nat)
    requires
        decimal(a) == decimal(b),
    ensures
        a == b,
    decreases a,
{
    lemma_decimal_digits(a / 10);
    lemma_decimal_digits(b / 10);
    if a >= 10 && b >= 10 {
        let da = decimal(a / 10).push(digit(a % 10));
        let db = decimal(b / 10).push(digit(b % 10));
        assert(da.last() == db.last());
        assert(digit(a % 10) as int == 48 + a % 10);
        assert(digit(b % 10) as int == 48 + b % 10);
        assert(da.drop_last() =~= decimal(a / 10));
        assert(db.drop_last() =~= decimal(b / 10));
        lemma_decimal_injective(a / 10, b / 10);
    } else if a < 10 && b < 10 {
        assert(decimal(a)[0] == digit(a));
        assert(decimal(b)[0] == digit(b));
        assert(digit(a) as int == 48 + a);
        assert(digit(b) as int == 48 + b);
    } else if a < 10 {
        assert(decimal(a).len() == 1);
        assert(decimal(b).len() == decimal(b / 10).len() + 1);
    } else {
        assert(decimal(b).len() == 1);
        assert(decimal(a).len() == decimal(a / 10).len() + 1);
    }
}

/// Appends `value` in decimal to `out`.
pub fn append_decimal(out: &mut String, value: u64)
    ensures
        final(out)@ == old(out)@ + decimal(value as nat),
{
    let ghost before = out@;
    let mut digits: Vec<char> = Vec::new();
    let mut rest: u64 = value;
    while rest >= 10
        invariant
            decimal(value as nat) == decimal(rest as nat) + digits@.reverse(),
        decreases rest,
    {
        let low: u8 = (rest % 10) as u8;
        let ghost older = digits@;
        digits.push((48 + low) as char);
        proof {
            assert(digits@.reverse() =~= seq![digit((rest % 10) as nat)] + older.reverse());
            assert(decimal(rest as nat) + older.reverse() =~= decimal((rest / 10) as nat)
                + digits@.reverse());
        }
        rest = rest / 10;
    }
    let low: u8 = rest as u8;
    out.push((48 + low) as char);
    let mut i: usize = digits.len();
    assert(digits@.reverse().take(0) =~= Seq::<char>::empty());
    while i > 0
        invariant
            i <= digits.len(),
            out@ == before + decimal(rest as nat) + digits@.reverse().take(digits.len() - i),
        decreases i,
    {
        i -= 1;
        out.push(digits[i]);
        proof {
            let r = digits@.reverse();
            let k = digits.len() - i - 1;
            assert(r[k] == digits@[i as int]);
            assert(r.take(k + 1) =~= r.take(k).push(r[k]));
        }
    }
    proof {
        let r = digits@.reverse();
        assert(r.take(digits.len() as int) =~= r);
        assert(out@ =~= before + decimal(value as nat));
    }
}

} // verus!
