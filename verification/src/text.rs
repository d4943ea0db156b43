//! Building text as sequences of characters: decimal rendering of integers,
//! copying string contents, and turning a character vector into a `String`.
use vstd::prelude::*;

verus! {

/// The decimal digit character for `d` (for `d < 10`).
pub open spec fn digit_char(d: nat) -> char {
    ((48 + d) as u32) as char
}

/// The decimal rendering of `n`, most significant digit first, without
/// leading zeros (zero renders as `"0"`).
pub open spec fn decimal(n: nat) -> Seq<char>
    decreases n,
{
    if n < 10 {
        seq![digit_char(n)]
    } else {
        decimal(n / 10).push(digit_char(n % 10))
    }
}

/// Appends the decimal rendering of `n` to `out`.
pub fn push_decimal(out: &mut Vec<char>, n: usize)
    ensures
        final(out)@ == old(out)@ + decimal(n as nat),
    decreases n,
{
    if n >= 10 {
        push_decimal(out, n / 10);
    }
    let d: u8 = (n % 10) as u8;
    let c: char = (48u8 + d) as char;
    proof {
        assert(c == digit_char((n % 10) as nat));
    }
    out.push(c);
    proof {
        assert(final(out)@ =~= old(out)@ + decimal(n as nat)) by {
            if n >= 10 {
                assert(decimal(n as nat) =~= decimal((n / 10) as nat).push(digit_char((n % 10) as nat)));
            } else {
                assert(decimal(n as nat) =~= seq![digit_char(n as nat)]);
            }
        }
    }
}

/// Appends the characters of `s` to `out`.
pub fn push_str(out: &mut Vec<char>, s: &str)
    ensures
        final(out)@ == old(out)@ + s@,
{
    let ghost start = out@;
    for c in it: s.chars()
        invariant
            out@ == start + it.seq().take(it.index() as int),
    {
        out.push(c);
    }
}

/// The characters of `s`, in order.
pub fn chars_of(s: &str) -> (r: Vec<char>)
    ensures
        r@ == s@,
{
    let mut r: Vec<char> = Vec::new();
    push_str(&mut r, s);
    r
}

/// Collects characters into a `String` (std's `FromIterator<char>` for
/// `String`): the string holds exactly those characters, in order.
#[verifier::external_body]
pub(crate) fn string_from_chars(v: &[char]) -> (r: String)
    ensures
        r@ == v@,
{
    v.iter().collect()
}

/// The decimal renderings of `s`, separated by `", "`.
pub open spec fn list_items(s: Seq<usize>) -> Seq<char>
    decreases s.len(),
{
    if s.len() == 0 {
        Seq::empty()
    } else if s.len() == 1 {
        decimal(s[0] as nat)
    } else {
        list_items(s.drop_last()) + ", "@ + decimal(s.last() as nat)
    }
}

/// `s` rendered as a bracketed list, e.g. `[2, 3]`.
pub open spec fn list_text(s: Seq<usize>) -> Seq<char> {
    "["@ + list_items(s) + "]"@
}

/// Appends `v` rendered as a bracketed list.
pub fn push_list(out: &mut Vec<char>, v: &[usize])
    ensures
        final(out)@ == old(out)@ + list_text(v@),
{
    let ghost start = out@;
    push_str(out, "[");
    let mut i: usize = 0;
    proof {
        assert(v@.take(0) =~= Seq::<usize>::empty());
    }
    while i < v.len()
        invariant
            i <= v@.len(),
            out@ == start + "["@ + list_items(v@.take(i as int)),
        decreases v@.len() - i,
    {
        let ghost before = out@;
        if i > 0 {
            push_str(out, ", ");
        }
        push_decimal(out, v[i]);
        proof {
            let t1 = v@.take(i + 1);
            assert(t1.drop_last() =~= v@.take(i as int));
            assert(t1.last() == v@[i as int]);
            if i == 0 {
                assert(t1.len() == 1);
                assert(list_items(v@.take(0)) =~= Seq::<char>::empty());
                assert(out@ =~= start + "["@ + list_items(t1));
            } else {
                assert(out@ =~= start + "["@ + list_items(t1));
            }
        }
        i = i + 1;
    }
    push_str(out, "]");
    proof {
        assert(v@.take(v@.len() as int) =~= v@);
        assert(out@ =~= start + list_text(v@));
    }
}

/// The upper-case hexadecimal digit for `d < 16`.
pub open spec fn hex_digit(d: u32) -> char {
    if d < 10 {
        ((48 + d) as u32) as char
    } else {
        ((55 + d) as u32) as char
    }
}

/// `v` as eight upper-case hexadecimal digits, most significant first.
pub open spec fn hex8(v: u32) -> Seq<char> {
    Seq::new(8, |i: int| hex_digit((v >> ((28 - 4 * i) as u32)) & 0xf))
}

/// Appends `v` as eight upper-case hexadecimal digits.
pub fn push_hex8(out: &mut Vec<char>, v: u32)
    ensures
        final(out)@ == old(out)@ + hex8(v),
{
    let ghost start = out@;
    let mut i: u32 = 0;
    while i < 8
        invariant
            i <= 8,
            out@ == start + hex8(v).take(i as int),
        decreases 8 - i,
    {
        let shift: u32 = 28 - 4 * i;
        let d: u32 = (v >> shift) & 0xf;
        proof {
            assert(d < 16) by (bit_vector)
                requires
                    d == (v >> shift) & 0xf,
            ;
        }
        let c: char = if d < 10 {
            (48u8 + d as u8) as char
        } else {
            (55u8 + d as u8) as char
        };
        out.push(c);
        proof {
            assert(c == hex_digit(d));
            assert(hex8(v)[i as int] == hex_digit(d));
            assert(out@ =~= start + hex8(v).take(i + 1));
        }
        i = i + 1;
    }
    proof {
        assert(hex8(v).take(8) =~= hex8(v));
    }
}

} // verus!
