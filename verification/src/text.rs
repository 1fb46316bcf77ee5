//! Writing numbers and lists into a text.

use vstd::prelude::*;
use vstd::string::StringExecFns;

verus! {

/// The character for a decimal digit.
pub open spec fn digit_char(digit: int) -> char {
    if digit == 0 {
        '0'
    } else if digit == 1 {
        '1'
    } else if digit == 2 {
        '2'
    } else if digit == 3 {
        '3'
    } else if digit == 4 {
        '4'
    } else if digit == 5 {
        '5'
    } else if digit == 6 {
        '6'
    } else if digit == 7 {
        '7'
    } else if digit == 8 {
        '8'
    } else {
        '9'
    }
}

/// A number in decimal writing, without leading zeros.
pub open spec fn decimal(n: nat) -> Seq<char>
    decreases n,
{
    if n < 10 {
        seq![digit_char(n as int)]
    } else {
        decimal(n / 10).push(digit_char((n % 10) as int))
    }
}

/// The digit that a character stands for, if it stands for one.
pub open spec fn digit_value(c: char) -> Option<nat> {
    if c == '0' {
        Some(0)
    } else if c == '1' {
        Some(1)
    } else if c == '2' {
        Some(2)
    } else if c == '3' {
        Some(3)
    } else if c == '4' {
        Some(4)
    } else if c == '5' {
        Some(5)
    } else if c == '6' {
        Some(6)
    } else if c == '7' {
        Some(7)
    } else if c == '8' {
        Some(8)
    } else if c == '9' {
        Some(9)
    } else {
        None
    }
}

/// The number that a run of decimal digits stands for; `None` where one of
/// the characters is no digit.
pub open spec fn decimal_value(digits: Seq<char>) -> Option<nat>
    decreases digits.len(),
{
    if digits.len() == 0 {
        Some(0)
    } else {
        match (decimal_value(digits.drop_last()), digit_value(digits.last())) {
            (Some(front), Some(unit)) => Some(front * 10 + unit),
            _ => None,
        }
    }
}

/// The parts of a list written one after the other with a separator
/// between each two: the first part, then every further part with the
/// separator before it.
pub open spec fn joined(parts: Seq<Seq<char>>, sep: Seq<char>) -> Seq<char> {
    if parts.len() == 0 {
        Seq::empty()
    } else {
        parts.first() + parts.drop_first().map_values(|part: Seq<char>| sep + part).flatten()
    }
}

fn digit_text(digit: usize) -> (text: &'static str)
    requires
        digit < 10,
    ensures
        text@ == seq![digit_char(digit as int)],
{
    proof {
        reveal_strlit("0");
        reveal_strlit("1");
        reveal_strlit("2");
        reveal_strlit("3");
        reveal_strlit("4");
        reveal_strlit("5");
        reveal_strlit("6");
        reveal_strlit("7");
        reveal_strlit("8");
        reveal_strlit("9");
    }
    let text = if digit == 0 {
        "0"
    } else if digit == 1 {
        "1"
    } else if digit == 2 {
        "2"
    } else if digit == 3 {
        "3"
    } else if digit == 4 {
        "4"
    } else if digit == 5 {
        "5"
    } else if digit == 6 {
        "6"
    } else if digit == 7 {
        "7"
    } else if digit == 8 {
        "8"
    } else {
        "9"
    };
    assert(text@ =~= seq![digit_char(digit as int)]);
    text
}

/// Writes a number in decimal at the end of a text.
pub fn push_decimal(out: &mut String, n: usize)
    ensures
        final(out)@ == old(out)@ + decimal(n as nat),
    decreases n,
{
    if n >= 10 {
        push_decimal(out, n / 10);
    }
    out.append(digit_text(n % 10));
    proof {
        if n >= 10 {
            assert(out@ =~= old(out)@ + decimal((n / 10) as nat).push(digit_char((n % 10) as int)));
        } else {
            assert(out@ =~= old(out)@ + seq![digit_char(n as int)]);
        }
    }
}

/// Writes the parts of a list at the end of a text, with a separator
/// between each two.
pub fn push_joined(out: &mut String, parts: &Vec<String>, sep: &str)
    ensures
        final(out)@ == old(out)@ + joined(parts.deep_view(), sep@),
{
    let ghost all = parts.deep_view();
    let ghost with_sep = |part: Seq<char>| sep@ + part;
    if parts.len() == 0 {
        assert(out@ =~= old(out)@ + Seq::<char>::empty());
        return ;
    }
    out.append(parts[0].as_str());
    let mut i: usize = 1;
    assert(all.take(1).drop_first() =~= Seq::<Seq<char>>::empty());
    assert(all.take(1).drop_first().map_values(with_sep) =~= Seq::<Seq<char>>::empty());
    assert(out@ =~= old(out)@ + all.first() + all.take(1).drop_first().map_values(
        with_sep,
    ).flatten());
    while i < parts.len()
        invariant
            1 <= i <= parts.len(),
            all == parts.deep_view(),
            with_sep == |part: Seq<char>| sep@ + part,
            out@ == old(out)@ + all.first() + all.take(i as int).drop_first().map_values(
                with_sep,
            ).flatten(),
        decreases parts.len() - i,
    {
        let ghost done = all.take(i as int).drop_first().map_values(with_sep);
        out.append(sep);
        out.append(parts[i].as_str());
        proof {
            assert(all[i as int] == parts[i as int]@);
            assert(all.take(i as int + 1).drop_first().map_values(with_sep) =~= done.push(
                sep@ + all[i as int],
            ));
            done.lemma_flatten_push(sep@ + all[i as int]);
            assert(out@ =~= old(out)@ + all.first() + done.push(sep@ + all[i as int]).flatten());
        }
        i += 1;
    }
    proof {
        assert(all.take(i as int) =~= all);
        assert(out@ =~= old(out)@ + joined(all, sep@));
    }
}

/// A number written in decimal reads back as itself: the digits that
/// [`decimal`] writes stand for the number written.
pub proof fn law_decimal_reads_back(n: nat)
    ensures
        decimal_value(decimal(n)) == Some(n),
        decimal(n).len() >= 1,
        n > 0 ==> decimal(n)[0] != '0',
    decreases n,
{
    if n < 10 {
        let digits = decimal(n);
        assert(digits.drop_last() =~= Seq::<char>::empty());
        assert(decimal_value(digits.drop_last()) == Some(0nat));
        assert(digits.last() == digit_char(n as int));
    } else {
        law_decimal_reads_back(n / 10);
        let front = decimal(n / 10);
        let digits = decimal(n);
        assert(digits.drop_last() =~= front);
        assert(digits.last() == digit_char((n % 10) as int));
        assert(digits[0] == front[0]);
    }
}

/// Joining goes part by part: no part gives the empty text, one part
/// gives that part, and a further part comes after the separator.
pub proof fn law_joined_by_parts(parts: Seq<Seq<char>>, part: Seq<char>, sep: Seq<char>)
    ensures
        joined(Seq::empty(), sep) == Seq::<char>::empty(),
        joined(seq![part], sep) == part,
        parts.len() > 0 ==> joined(parts.push(part), sep) == joined(parts, sep) + sep + part,
{
    let with_sep = |piece: Seq<char>| sep + piece;
    assert(seq![part].drop_first().map_values(with_sep) =~= Seq::<Seq<char>>::empty());
    assert(joined(seq![part], sep) =~= part);
    if parts.len() > 0 {
        let rest = parts.drop_first().map_values(with_sep);
        assert(parts.push(part).drop_first().map_values(with_sep) =~= rest.push(sep + part));
        rest.lemma_flatten_push(sep + part);
        assert(parts.push(part).first() == parts.first());
        assert(joined(parts.push(part), sep) =~= joined(parts, sep) + sep + part);
    }
}

/// A joined list begins with its first part and ends with its last: no
/// separator stands before the first part or after the last.
pub proof fn law_joined_ends(parts: Seq<Seq<char>>, sep: Seq<char>)
    requires
        parts.len() > 0,
    ensures
        parts.first().is_prefix_of(joined(parts, sep)),
        parts.last().is_suffix_of(joined(parts, sep)),
{
    let whole = joined(parts, sep);
    assert(parts.first() =~= whole.subrange(0, parts.first().len() as int));
    if parts.len() == 1 {
        law_joined_by_parts(Seq::empty(), parts.first(), sep);
        assert(parts =~= seq![parts.first()]);
        assert(parts.last() =~= whole.subrange(0, whole.len() as int));
    } else {
        law_joined_by_parts(parts.drop_last(), parts.last(), sep);
        assert(parts.drop_last().push(parts.last()) =~= parts);
        let front = joined(parts.drop_last(), sep) + sep;
        assert(whole =~= front + parts.last());
        assert(parts.last() =~= whole.subrange(
            whole.len() - parts.last().len(),
            whole.len() as int,
        ));
    }
}

/// How many line breaks a text holds.
pub open spec fn line_breaks(text: Seq<char>) -> nat
    decreases text.len(),
{
    if text.len() == 0 {
        0
    } else if text.last() == '\n' {
        line_breaks(text.drop_last()) + 1
    } else {
        line_breaks(text.drop_last())
    }
}

/// The line breaks of two texts written one after the other are those of
/// both.
pub proof fn law_line_breaks_add(front: Seq<char>, back: Seq<char>)
    ensures
        line_breaks(front + back) == line_breaks(front) + line_breaks(back),
    decreases back.len(),
{
    if back.len() == 0 {
        assert(front + back =~= front);
    } else {
        law_line_breaks_add(front, back.drop_last());
        assert((front + back).drop_last() =~= front + back.drop_last());
        assert((front + back).last() == back.last());
    }
}

} // verus!
