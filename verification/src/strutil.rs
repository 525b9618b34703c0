//! Character-level helpers shared by the path, url and rewrite modules.
//!
//! Most of the library's reasoning happens over `Seq<char>`, so strings are
//! moved between `String` and `Vec<char>` at the boundaries with the two
//! trusted conversions below; everything else here is verified.

use vstd::prelude::*;
use vstd::string::StringExecFns;

verus! {

/// Relies on `str::chars`: the iterator yields exactly the characters of the
/// string, in order.
#[verifier::external_body]
pub fn chars_of(s: &str) -> (r: Vec<char>)
    ensures
        r@ == s@,
{
    s.chars().collect()
}

/// Relies on `FromIterator<char> for String`: collecting characters builds
/// the string of exactly those characters, in order.
#[verifier::external_body]
pub fn string_of(cs: &Vec<char>) -> (r: String)
    ensures
        r@ == cs@,
{
    cs.iter().collect()
}

/// Character-for-character equality of two character vectors.
pub fn chars_eq(a: &Vec<char>, b: &Vec<char>) -> (r: bool)
    ensures
        r == (a@ == b@),
{
    if a.len() != b.len() {
        assert(a@ != b@);
        return false;
    }
    let n = a.len();
    let mut i: usize = 0;
    while i < n
        invariant
            n == a.len() == b.len(),
            i <= n,
            forall|k: int| 0 <= k < i ==> a@[k] == b@[k],
        decreases n - i,
    {
        if a[i] != b[i] {
            return false;
        }
        i += 1;
    }
    proof {
        assert(a@ =~= b@);
    }
    true
}

/// Equality between a character vector and a string literal.
pub fn chars_eq_str(a: &Vec<char>, s: &str) -> (r: bool)
    ensures
        r == (a@ == s@),
{
    let bs = chars_of(s);
    chars_eq(a, &bs)
}

/// Character-for-character equality of two strings.
pub fn str_eq(a: &str, b: &str) -> (r: bool)
    ensures
        r == (a@ == b@),
{
    let ac = chars_of(a);
    let bc = chars_of(b);
    chars_eq(&ac, &bc)
}

/// The character for one decimal or hexadecimal digit value.
pub open spec fn digit_char(d: int) -> char {
    if d == 0 {
        '0'
    } else if d == 1 {
        '1'
    } else if d == 2 {
        '2'
    } else if d == 3 {
        '3'
    } else if d == 4 {
        '4'
    } else if d == 5 {
        '5'
    } else if d == 6 {
        '6'
    } else if d == 7 {
        '7'
    } else if d == 8 {
        '8'
    } else if d == 9 {
        '9'
    } else if d == 10 {
        'a'
    } else if d == 11 {
        'b'
    } else if d == 12 {
        'c'
    } else if d == 13 {
        'd'
    } else if d == 14 {
        'e'
    } else {
        'f'
    }
}

/// The digit characters of `n` written in base `b`, without leading zeros.
pub open spec fn spec_radix(n: int, b: int) -> Seq<char>
    recommends
        2 <= b <= 16,
    decreases n,
    via spec_radix_dec
{
    if n < 0 || b < 2 {
        Seq::empty()
    } else if n < b {
        seq![digit_char(n)]
    } else {
        spec_radix(n / b, b) + seq![digit_char(n % b)]
    }
}

#[via_fn]
proof fn spec_radix_dec(n: int, b: int) {
    if !(n < 0 || b < 2) && !(n < b) {
        assert(0 <= n / b < n) by (nonlinear_arith)
            requires
                n >= b >= 2,
        ;
    }
}

/// The decimal rendering of `n`.
pub open spec fn spec_decimal(n: int) -> Seq<char> {
    spec_radix(n, 10)
}

/// The lowercase hexadecimal rendering of `n`.
pub open spec fn spec_hex(n: int) -> Seq<char> {
    spec_radix(n, 16)
}

/// The character for one digit value below sixteen.
fn digit_char_of(d: u64) -> (r: char)
    requires
        d < 16,
    ensures
        r == digit_char(d as int),
{
    match d {
        0 => '0',
        1 => '1',
        2 => '2',
        3 => '3',
        4 => '4',
        5 => '5',
        6 => '6',
        7 => '7',
        8 => '8',
        9 => '9',
        10 => 'a',
        11 => 'b',
        12 => 'c',
        13 => 'd',
        14 => 'e',
        _ => 'f',
    }
}

/// The digits of `n` in base `b`, most significant first.
pub fn radix_chars(n: u64, b: u64) -> (r: Vec<char>)
    requires
        2 <= b <= 16,
    ensures
        r@ == spec_radix(n as int, b as int),
    decreases n,
{
    if n < b {
        let mut out: Vec<char> = Vec::new();
        out.push(digit_char_of(n));
        proof {
            assert(out@ =~= seq![digit_char(n as int)]);
        }
        out
    } else {
        proof {
            assert(n / b < n) by (nonlinear_arith)
                requires
                    n >= b >= 2,
            ;
        }
        let mut out = radix_chars(n / b, b);
        out.push(digit_char_of(n % b));
        proof {
            assert(out@ =~= spec_radix(n as int / b as int, b as int) + seq![
                digit_char(n as int % b as int),
            ]);
        }
        out
    }
}

/// Render `n` in decimal.
pub fn to_decimal(n: u64) -> (r: String)
    ensures
        r@ == spec_decimal(n as int),
{
    let cs = radix_chars(n, 10);
    string_of(&cs)
}

/// Render `n` in lowercase hexadecimal, as the cache identifiers use it.
pub fn to_hex(n: u64) -> (r: String)
    ensures
        r@ == spec_hex(n as int),
{
    let cs = radix_chars(n, 16);
    string_of(&cs)
}

/// Append a string onto a character vector.
pub fn push_str_chars(out: &mut Vec<char>, s: &str)
    ensures
        final(out)@ == old(out)@ + s@,
{
    let cs = chars_of(s);
    let n = cs.len();
    let mut i: usize = 0;
    while i < n
        invariant
            n == cs.len(),
            cs@ == s@,
            i <= n,
            out@ =~= old(out)@ + cs@.take(i as int),
        decreases n - i,
    {
        out.push(cs[i]);
        i += 1;
    }
    proof {
        assert(old(out)@ + cs@.take(n as int) =~= old(out)@ + s@);
    }
}

/// Is `a` strictly before `b` in lexicographic order by code point,
/// comparing from position `i` on?  This matches the byte order of the
/// UTF-8 encodings, the order the host sorts strings in.
pub open spec fn lex_lt_from(a: Seq<char>, b: Seq<char>, i: int) -> bool
    decreases a.len() - i,
{
    if i >= a.len() && i >= b.len() {
        false
    } else if i >= a.len() {
        true
    } else if i >= b.len() {
        false
    } else if a[i] != b[i] {
        (a[i] as u32) < (b[i] as u32)
    } else {
        lex_lt_from(a, b, i + 1)
    }
}

/// Strict lexicographic order on strings, by code point.
pub open spec fn spec_str_lt(a: Seq<char>, b: Seq<char>) -> bool {
    lex_lt_from(a, b, 0)
}

/// Two strings neither of which is before the other agree from `i` on.
pub proof fn lemma_lex_connected(a: Seq<char>, b: Seq<char>, i: int)
    requires
        0 <= i <= a.len(),
        i <= b.len(),
        !lex_lt_from(a, b, i),
        !lex_lt_from(b, a, i),
    ensures
        a.skip(i) =~= b.skip(i),
    decreases a.len() - i,
{
    if i >= a.len() && i >= b.len() {
        assert(a.skip(i) =~= b.skip(i));
    } else if i >= a.len() {
        assert(lex_lt_from(a, b, i));
    } else if i >= b.len() {
        assert(lex_lt_from(b, a, i));
    } else if a[i] != b[i] {
        assert((a[i] as u32) != (b[i] as u32)) by {
            crate::strutil::lemma_char_cast_distinct(a[i], b[i]);
        }
        assert(lex_lt_from(a, b, i) || lex_lt_from(b, a, i));
    } else {
        lemma_lex_connected(a, b, i + 1);
        assert(a.skip(i) =~= seq![a[i]] + a.skip(i + 1));
        assert(b.skip(i) =~= seq![b[i]] + b.skip(i + 1));
    }
}

/// Distinct characters have distinct code points.
pub proof fn lemma_char_cast_distinct(x: char, y: char)
    requires
        x != y,
    ensures
        (x as u32) != (y as u32),
{
    if (x as u32) == (y as u32) {
        assert(x == ((x as u32) as char));
        assert(y == ((y as u32) as char));
    }
}

/// Equal strings are not strictly ordered; distinct ones are, one way.
pub proof fn lemma_str_lt_total(a: Seq<char>, b: Seq<char>)
    ensures
        a == b ==> !spec_str_lt(a, b),
        a != b ==> spec_str_lt(a, b) || spec_str_lt(b, a),
{
    if !spec_str_lt(a, b) && !spec_str_lt(b, a) {
        lemma_lex_connected(a, b, 0);
        assert(a.skip(0) =~= a);
        assert(b.skip(0) =~= b);
        assert(a == b);
    }
    if a == b {
        lemma_lex_irrefl(a, 0);
    }
}

/// No string is strictly before itself.
proof fn lemma_lex_irrefl(a: Seq<char>, i: int)
    requires
        0 <= i,
    ensures
        !lex_lt_from(a, a, i),
    decreases a.len() - i,
{
    if i < a.len() {
        lemma_lex_irrefl(a, i + 1);
    }
}

/// The strict order is transitive.
pub proof fn lemma_str_lt_trans(a: Seq<char>, b: Seq<char>, c: Seq<char>)
    requires
        spec_str_lt(a, b),
        spec_str_lt(b, c),
    ensures
        spec_str_lt(a, c),
{
    lemma_lex_trans_from(a, b, c, 0);
}

proof fn lemma_lex_trans_from(a: Seq<char>, b: Seq<char>, c: Seq<char>, i: int)
    requires
        0 <= i,
        lex_lt_from(a, b, i),
        lex_lt_from(b, c, i),
    ensures
        lex_lt_from(a, c, i),
    decreases a.len() - i,
{
    if i >= a.len() {
    } else if i >= b.len() {
        assert(!lex_lt_from(a, b, i));
    } else if i >= c.len() {
        assert(!lex_lt_from(b, c, i));
    } else if a[i] == b[i] && b[i] == c[i] {
        lemma_lex_trans_from(a, b, c, i + 1);
    }
}

/// Compare two character vectors in lexicographic order.
pub fn chars_lt(a: &Vec<char>, b: &Vec<char>) -> (r: bool)
    ensures
        r == spec_str_lt(a@, b@),
{
    let an = a.len();
    let bn = b.len();
    let mut i: usize = 0;
    while i < an && i < bn
        invariant
            an == a.len(),
            bn == b.len(),
            i <= an,
            i <= bn,
            spec_str_lt(a@, b@) == lex_lt_from(a@, b@, i as int),
        decreases an - i,
    {
        let x = a[i];
        let y = b[i];
        if x != y {
            return (x as u32) < (y as u32);
        }
        i += 1;
    }
    i >= an && i < bn
}

/// Compare two strings in lexicographic order by code point.
pub fn str_lt(a: &str, b: &str) -> (r: bool)
    ensures
        r == spec_str_lt(a@, b@),
{
    let ac = chars_of(a);
    let bc = chars_of(b);
    chars_lt(&ac, &bc)
}

/// Concatenate two strings.
pub fn concat2(a: &str, b: &str) -> (r: String)
    ensures
        r@ == a@ + b@,
{
    let mut out = a.to_owned();
    out.append(b);
    out
}

/// Concatenate three strings.
pub fn concat3(a: &str, b: &str, c: &str) -> (r: String)
    ensures
        r@ == a@ + b@ + c@,
{
    let mut out = a.to_owned();
    out.append(b);
    out.append(c);
    out
}

} // verus!
