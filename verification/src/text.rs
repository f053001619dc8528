//! Character-level helpers shared by the query language, the path
//! sanitiser and the edit representation: conversions between strings and
//! character vectors, and decimal rendering of integers.

use vstd::prelude::*;
use vstd::string::StrSliceExecFns;

verus! {

/// Collects the characters of a string slice into a vector.
pub fn str_to_chars(s: &str) -> (r: Vec<char>)
    ensures
        r@ == s@,
{
    let n = s.unicode_len();
    let mut r: Vec<char> = Vec::new();
    let mut i: usize = 0;
    while i < n
        invariant
            n == s@.len(),
            i <= n,
            r@ == s@.take(i as int),
        decreases n - i,
    {
        let c = s.get_char(i);
        r.push(c);
        i += 1;
        proof {
            assert(s@.take(i as int) =~= s@.take(i - 1).push(s@[i - 1]));
        }
    }
    proof {
        assert(s@.take(n as int) =~= s@);
    }
    r
}

/// How many bytes one character occupies in UTF-8: one below U+0080, two
/// below U+0800, three below U+10000, four beyond.
pub open spec fn utf8_char_len(c: char) -> nat {
    if (c as u32) < 0x80 {
        1
    } else if (c as u32) < 0x800 {
        2
    } else if (c as u32) < 0x10000 {
        3
    } else {
        4
    }
}

/// How many bytes a character sequence occupies in UTF-8.
pub open spec fn utf8_len(s: Seq<char>) -> nat
    decreases s.len(),
{
    if s.len() == 0 {
        0
    } else {
        utf8_len(s.drop_last()) + utf8_char_len(s.last())
    }
}

/// Relies on `str::len`: the length of the string's UTF-8 encoding, in
/// bytes.
#[verifier::external_body]
pub fn byte_len(s: &str) -> (r: usize)
    ensures
        r == utf8_len(s@),
{
    s.len()
}

/// Relies on `String::push`: appends the given character to the string.
#[verifier::external_body]
fn push_char(s: &mut String, c: char)
    ensures
        final(s)@ == old(s)@.push(c),
{
    s.push(c);
}

/// Builds a string out of a vector of characters.
pub fn chars_to_string(cs: &Vec<char>) -> (r: String)
    ensures
        r@ == cs@,
{
    let mut r = String::new();
    let mut i: usize = 0;
    while i < cs.len()
        invariant
            i <= cs@.len(),
            r@ == cs@.take(i as int),
        decreases cs@.len() - i,
    {
        push_char(&mut r, cs[i]);
        i += 1;
        proof {
            assert(cs@.take(i as int) =~= cs@.take(i - 1).push(cs@[i - 1]));
        }
    }
    proof {
        assert(cs@.take(cs@.len() as int) =~= cs@);
    }
    r
}

/// The character for one decimal digit.
pub open spec fn spec_digit(d: int) -> char {
    if d == 0 {
        '0'
    } else if d == 1 {
        '1'
    } else if d == 2 {
        '2'
    } else if d == 3 {
        '3'
    } else if d == 4 {
        '4'
    } else if d == 5 {
        '5'
    } else if d == 6 {
        '6'
    } else if d == 7 {
        '7'
    } else if d == 8 {
        '8'
    } else {
        '9'
    }
}

/// Whether a character is a decimal digit.
pub open spec fn is_dec_digit(c: char) -> bool {
    exists|d: int| 0 <= d < 10 && c == spec_digit(d)
}

/// The usual decimal rendering of a natural number, most significant digit
/// first, with no leading zeros (except for zero itself).
pub open spec fn spec_dec(n: nat) -> Seq<char>
    decreases n,
{
    if n < 10 {
        seq![spec_digit(n as int)]
    } else {
        spec_dec(n / 10).push(spec_digit((n % 10) as int))
    }
}

fn digit_char(d: u64) -> (c: char)
    requires
        d < 10,
    ensures
        c == spec_digit(d as int),
{
    if d == 0 {
        '0'
    } else if d == 1 {
        '1'
    } else if d == 2 {
        '2'
    } else if d == 3 {
        '3'
    } else if d == 4 {
        '4'
    } else if d == 5 {
        '5'
    } else if d == 6 {
        '6'
    } else if d == 7 {
        '7'
    } else if d == 8 {
        '8'
    } else {
        '9'
    }
}

/// Renders a number in decimal.
pub fn dec_u64_chars(n: u64) -> (r: Vec<char>)
    ensures
        r@ == spec_dec(n as nat),
    decreases n,
{
    if n < 10 {
        let mut v: Vec<char> = Vec::new();
        v.push(digit_char(n));
        v
    } else {
        let mut v = dec_u64_chars(n / 10);
        v.push(digit_char(n % 10));
        v
    }
}

/// Every character of a decimal rendering is a digit.
pub proof fn lemma_dec_digits_only(n: nat)
    ensures
        forall|i: int| 0 <= i < spec_dec(n).len() ==> is_dec_digit(#[trigger] spec_dec(n)[i]),
    decreases n,
{
    if n < 10 {
        assert(spec_dec(n)[0] == spec_digit(n as int));
        assert(is_dec_digit(spec_digit(n as int)));
    } else {
        lemma_dec_digits_only(n / 10);
        assert(spec_dec(n).last() == spec_digit((n % 10) as int));
        assert(is_dec_digit(spec_digit((n % 10) as int)));
        assert forall|i: int| 0 <= i < spec_dec(n).len() implies is_dec_digit(
            #[trigger] spec_dec(n)[i],
        ) by {
            if i < spec_dec(n).len() - 1 {
                assert(spec_dec(n)[i] == spec_dec(n / 10)[i]);
            }
        }
    }
}

/// A decimal rendering is never empty.
pub proof fn lemma_dec_nonempty(n: nat)
    ensures
        spec_dec(n).len() >= 1,
    decreases n,
{
    if n >= 10 {
        lemma_dec_nonempty(n / 10);
    }
}

proof fn lemma_digit_injective(a: int, b: int)
    requires
        0 <= a < 10,
        0 <= b < 10,
        spec_digit(a) == spec_digit(b),
    ensures
        a == b,
{
}

/// Distinct numbers render as distinct digit strings.
pub proof fn lemma_dec_injective(a: nat, b: nat)
    requires
        spec_dec(a) == spec_dec(b),
    ensures
        a == b,
    decreases a,
{
    lemma_dec_nonempty(a);
    lemma_dec_nonempty(b);
    if a < 10 && b < 10 {
        assert(spec_dec(a)[0] == spec_digit(a as int));
        assert(spec_dec(b)[0] == spec_digit(b as int));
        lemma_digit_injective(a as int, b as int);
    } else if a < 10 {
        lemma_dec_nonempty(b / 10);
        assert(spec_dec(b).len() >= 2);
    } else if b < 10 {
        lemma_dec_nonempty(a / 10);
        assert(spec_dec(a).len() >= 2);
    } else {
        assert(spec_dec(a).last() == spec_digit((a % 10) as int));
        assert(spec_dec(b).last() == spec_digit((b % 10) as int));
        lemma_digit_injective((a % 10) as int, (b % 10) as int);
        assert(spec_dec(a).drop_last() =~= spec_dec(a / 10));
        assert(spec_dec(b).drop_last() =~= spec_dec(b / 10));
        lemma_dec_injective(a / 10, b / 10);
    }
}


/// Compares two string slices by their characters.
pub fn str_eq(a: &str, b: &str) -> (r: bool)
    ensures
        r == (a@ == b@),
{
    let x = a.to_owned();
    let y = b.to_owned();
    x == y
}


/// Lexicographic order on character sequences by code point: the empty
/// sequence first, then by the first differing position, a strict prefix
/// before its extensions.
pub open spec fn lex_le(a: Seq<char>, b: Seq<char>) -> bool
    decreases a.len(),
{
    if a.len() == 0 {
        true
    } else if b.len() == 0 {
        false
    } else if (a[0] as u32) < (b[0] as u32) {
        true
    } else if (a[0] as u32) > (b[0] as u32) {
        false
    } else {
        lex_le(a.drop_first(), b.drop_first())
    }
}

/// Whether `a` sorts at or before `b` in code-point order.
pub fn str_le(a: &str, b: &str) -> (r: bool)
    ensures
        r == lex_le(a@, b@),
{
    let ac = str_to_chars(a);
    let bc = str_to_chars(b);
    let mut i: usize = 0;
    proof {
        assert(a@.skip(0) =~= a@);
        assert(b@.skip(0) =~= b@);
    }
    while i < ac.len() && i < bc.len()
        invariant
            ac@ == a@,
            bc@ == b@,
            i <= a@.len(),
            i <= b@.len(),
            lex_le(a@, b@) == lex_le(a@.skip(i as int), b@.skip(i as int)),
        decreases a@.len() - i,
    {
        let x = ac[i] as u32;
        let y = bc[i] as u32;
        proof {
            assert(a@.skip(i as int)[0] == a@[i as int]);
            assert(b@.skip(i as int)[0] == b@[i as int]);
        }
        if x < y {
            return true;
        }
        if x > y {
            return false;
        }
        i += 1;
        proof {
            assert(a@.skip(i - 1).drop_first() =~= a@.skip(i as int));
            assert(b@.skip(i - 1).drop_first() =~= b@.skip(i as int));
        }
    }
    proof {
        if i == a@.len() {
            assert(a@.skip(i as int).len() == 0);
            assert(lex_le(a@.skip(i as int), b@.skip(i as int)));
        } else {
            assert(b@.skip(i as int).len() == 0);
            assert(a@.skip(i as int).len() > 0);
            assert(!lex_le(a@.skip(i as int), b@.skip(i as int)));
        }
    }
    ac.len() <= bc.len()
}

/// The remainder of `s` after the prefix `p`, if `s` begins with `p`.
pub fn try_strip_prefix(s: &str, p: &str) -> (r: Option<Vec<char>>)
    ensures
        match r {
            Some(rest) => p@.len() <= s@.len() && s@.take(p@.len() as int) == p@ && rest@
                == s@.skip(p@.len() as int),
            None => !(p@.len() <= s@.len() && s@.take(p@.len() as int) == p@),
        },
{
    let sc = str_to_chars(s);
    let pc = str_to_chars(p);
    if pc.len() > sc.len() {
        return None;
    }
    let mut i: usize = 0;
    while i < pc.len()
        invariant
            sc@ == s@,
            pc@ == p@,
            p@.len() <= s@.len(),
            i <= p@.len(),
            forall|k: int| 0 <= k < i ==> s@[k] == p@[k],
        decreases pc@.len() - i,
    {
        if sc[i] != pc[i] {
            proof {
                assert(s@.take(p@.len() as int)[i as int] != p@[i as int]);
            }
            return None;
        }
        i += 1;
    }
    let mut rest: Vec<char> = Vec::new();
    let mut j = pc.len();
    proof {
        assert(rest@ =~= s@.skip(p@.len() as int).take(0));
    }
    while j < sc.len()
        invariant
            sc@ == s@,
            pc@ == p@,
            p@.len() <= j <= s@.len(),
            rest@ == s@.skip(p@.len() as int).take(j - p@.len()),
        decreases sc@.len() - j,
    {
        rest.push(sc[j]);
        j += 1;
        proof {
            let sk = s@.skip(p@.len() as int);
            assert(sk[j - 1 - p@.len()] == s@[j - 1]);
            assert(sk.take(j - p@.len()) =~= sk.take(j - 1 - p@.len()).push(
                sk[j - 1 - p@.len()],
            ));
        }
    }
    proof {
        assert(s@.take(p@.len() as int) =~= p@);
        assert(s@.skip(p@.len() as int).take(s@.len() - p@.len()) =~= s@.skip(p@.len() as int));
    }
    Some(rest)
}

/// Extending a prefix copy of `full` by the next character keeps it a
/// prefix copy.
pub proof fn lemma_subrange_push(full: Seq<char>, i0: int, j: int, b: Seq<char>)
    requires
        0 <= i0 <= j < full.len(),
        b == full.subrange(i0, j),
    ensures
        b.push(full[j]) == full.subrange(i0, j + 1),
{
    assert(b.push(full[j]) =~= full.subrange(i0, j + 1));
}

} // verus!
