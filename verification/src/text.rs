//! Small verified text utilities: byte-lexicographic comparison of strings,
//! decimal rendering of counters, and joining of text blocks.

use vstd::prelude::*;
use vstd::string::StrSliceExecFns;
use vstd::string::StringExecFns;
use vstd::string::StringSliceAdditionalSpecFns;

verus! {

/// Byte-lexicographic "less than or equal" on byte sequences.
pub open spec fn lex_le(a: Seq<u8>, b: Seq<u8>) -> bool
    decreases a.len(),
{
    if a.len() == 0 {
        true
    } else if b.len() == 0 {
        false
    } else if a[0] < b[0] {
        true
    } else if a[0] > b[0] {
        false
    } else {
        lex_le(a.drop_first(), b.drop_first())
    }
}

/// `lex_le` is total: any two byte sequences compare one way or the other.
pub proof fn lemma_lex_le_total(a: Seq<u8>, b: Seq<u8>)
    ensures
        lex_le(a, b) || lex_le(b, a),
    decreases a.len(),
{
    if a.len() != 0 && b.len() != 0 && a[0] == b[0] {
        lemma_lex_le_total(a.drop_first(), b.drop_first());
    }
}

/// `lex_le` is transitive.
pub proof fn lemma_lex_le_trans(a: Seq<u8>, b: Seq<u8>, c: Seq<u8>)
    requires
        lex_le(a, b),
        lex_le(b, c),
    ensures
        lex_le(a, c),
    decreases a.len(),
{
    if a.len() != 0 && b.len() != 0 && c.len() != 0 && a[0] == c[0] {
        if a[0] == b[0] && b[0] == c[0] {
            lemma_lex_le_trans(a.drop_first(), b.drop_first(), c.drop_first());
        }
    }
}

/// Comparing two sequences that agree on their first `i` elements reduces to
/// comparing what is left after those elements.
proof fn lemma_lex_le_skip(a: Seq<u8>, b: Seq<u8>, i: int)
    requires
        0 <= i <= a.len(),
        i <= b.len(),
        forall|k: int| 0 <= k < i ==> a[k] == b[k],
    ensures
        lex_le(a, b) == lex_le(a.skip(i), b.skip(i)),
    decreases i,
{
    if i == 0 {
        assert(a.skip(0) =~= a);
        assert(b.skip(0) =~= b);
    } else {
        assert(a.len() != 0 && b.len() != 0 && a[0] == b[0]);
        assert(lex_le(a, b) == lex_le(a.drop_first(), b.drop_first()));
        assert(a.drop_first() =~= a.skip(1));
        assert(b.drop_first() =~= b.skip(1));
        lemma_lex_le_skip(a.skip(1), b.skip(1), i - 1);
        assert(a.skip(1).skip(i - 1) =~= a.skip(i));
        assert(b.skip(1).skip(i - 1) =~= b.skip(i));
    }
}

/// The UTF-8 bytes of a string's characters.
pub open spec fn str_bytes(s: Seq<char>) -> Seq<u8> {
    vstd::utf8::encode_utf8(s)
}

/// Decides `lex_le` on the UTF-8 bytes of two strings.
pub fn lex_le_bytes(a: &str, b: &str) -> (r: bool)
    ensures
        r == lex_le(str_bytes(a@), str_bytes(b@)),
{
    let ab = a.as_bytes();
    let bb = b.as_bytes();
    let an = ab.len();
    let bn = bb.len();
    let ghost sa = a.spec_bytes();
    let ghost sb = b.spec_bytes();
    let mut i: usize = 0;
    loop
        invariant
            i <= an,
            i <= bn,
            an == sa.len(),
            bn == sb.len(),
            ab@ == sa,
            bb@ == sb,
            sa == str_bytes(a@),
            sb == str_bytes(b@),
            forall|k: int| 0 <= k < i ==> sa[k] == sb[k],
        decreases an - i,
    {
        proof {
            lemma_lex_le_skip(sa, sb, i as int);
        }
        if i >= an {
            assert(sa.skip(i as int).len() == 0);
            assert(lex_le(sa.skip(i as int), sb.skip(i as int)));
            assert(str_bytes(a@) == sa);
            assert(str_bytes(b@) == sb);
            return true;
        }
        if i >= bn {
            assert(sb.skip(i as int).len() == 0);
            assert(sa.skip(i as int).len() != 0);
            assert(!lex_le(sa.skip(i as int), sb.skip(i as int)));
            return false;
        }
        let x = ab[i];
        let y = bb[i];
        assert(sa.skip(i as int)[0] == sa[i as int]);
        assert(sb.skip(i as int)[0] == sb[i as int]);
        if x < y {
            assert(lex_le(sa.skip(i as int), sb.skip(i as int)));
            return true;
        }
        if x > y {
            assert(!lex_le(sa.skip(i as int), sb.skip(i as int)));
            return false;
        }
        i += 1;
    }
}

/// The digit character for a value below ten.
pub open spec fn dec_digit(d: int) -> char {
    if d == 0 {
        '0'
    } else if d == 1 {
        '1'
    } else if d == 2 {
        '2'
    } else if d == 3 {
        '3'
    } else if d == 4 {
        '4'
    } else if d == 5 {
        '5'
    } else if d == 6 {
        '6'
    } else if d == 7 {
        '7'
    } else if d == 8 {
        '8'
    } else {
        '9'
    }
}

/// The decimal rendering of a non-negative number, most significant digit
/// first, with no leading zeros (zero itself renders as "0").
pub open spec fn dec_chars(n: int) -> Seq<char>
    decreases n,
{
    if n < 10 {
        seq![dec_digit(n)]
    } else {
        dec_chars(n / 10).push(dec_digit(n % 10))
    }
}

/// Appends one decimal digit to `out`.
fn push_digit(out: &mut String, d: usize)
    requires
        d < 10,
    ensures
        final(out)@ == old(out)@.push(dec_digit(d as int)),
{
    let s: &str = match d {
        0 => "0",
        1 => "1",
        2 => "2",
        3 => "3",
        4 => "4",
        5 => "5",
        6 => "6",
        7 => "7",
        8 => "8",
        _ => "9",
    };
    proof {
        reveal_strlit("0");
        reveal_strlit("1");
        reveal_strlit("2");
        reveal_strlit("3");
        reveal_strlit("4");
        reveal_strlit("5");
        reveal_strlit("6");
        reveal_strlit("7");
        reveal_strlit("8");
        reveal_strlit("9");
        assert(s@ =~= seq![dec_digit(d as int)]);
    }
    out.append(s);
    proof {
        assert(out@ =~= old(out)@.push(dec_digit(d as int)));
    }
}

/// Appends the decimal rendering of `n` to `out`.
pub fn push_decimal(out: &mut String, n: usize)
    ensures
        final(out)@ == old(out)@ + dec_chars(n as int),
    decreases n,
{
    if n < 10 {
        push_digit(out, n);
        proof {
            assert(out@ =~= old(out)@ + dec_chars(n as int));
        }
    } else {
        push_decimal(out, n / 10);
        push_digit(out, n % 10);
        proof {
            assert(out@ =~= old(out)@ + dec_chars(n as int));
        }
    }
}

/// Text blocks joined by a blank line.
pub open spec fn join_blocks(parts: Seq<Seq<char>>) -> Seq<char>
    decreases parts.len(),
{
    if parts.len() == 0 {
        Seq::empty()
    } else if parts.len() == 1 {
        parts[0]
    } else {
        join_blocks(parts.drop_last()) + "\n\n"@ + parts.last()
    }
}

} // verus!
