//! Character-level helpers shared by the schema engine and the renderer:
//! string equality and ordering, decimal formatting, and the numeric
//! literal grammar used by number fields.
use vstd::prelude::*;
use vstd::string::StrSliceExecFns;

verus! {

/// Equality of two string slices, decided character by character.
pub fn str_eq(a: &str, b: &str) -> (r: bool)
    ensures
        r == (a@ == b@),
{
    let an = a.unicode_len();
    let bn = b.unicode_len();
    if an != bn {
        return false;
    }
    let mut i: usize = 0;
    while i < an
        invariant
            an == a@.len(),
            bn == b@.len(),
            an == bn,
            i <= an,
            forall|j: int| 0 <= j < i ==> a@[j] == b@[j],
        decreases an - i,
    {
        if a.get_char(i) != b.get_char(i) {
            return false;
        }
        i += 1;
    }
    proof {
        assert(a@ =~= b@);
    }
    true
}

/// Lexicographic order on character sequences, by code point.
pub open spec fn str_le(a: Seq<char>, b: Seq<char>) -> bool
    decreases a.len(),
{
    if a.len() == 0 {
        true
    } else if b.len() == 0 {
        false
    } else if (a[0] as u32) < (b[0] as u32) {
        true
    } else if (a[0] as u32) > (b[0] as u32) {
        false
    } else {
        str_le(a.drop_first(), b.drop_first())
    }
}

pub proof fn lemma_str_le_total(a: Seq<char>, b: Seq<char>)
    ensures
        str_le(a, b) || str_le(b, a),
    decreases a.len(),
{
    if a.len() != 0 && b.len() != 0 && (a[0] as u32) == (b[0] as u32) {
        lemma_str_le_total(a.drop_first(), b.drop_first());
    }
}

pub proof fn lemma_str_le_trans(a: Seq<char>, b: Seq<char>, c: Seq<char>)
    requires
        str_le(a, b),
        str_le(b, c),
    ensures
        str_le(a, c),
    decreases a.len(),
{
    if a.len() != 0 && b.len() != 0 && c.len() != 0 {
        if (a[0] as u32) == (b[0] as u32) && (b[0] as u32) == (c[0] as u32) {
            lemma_str_le_trans(a.drop_first(), b.drop_first(), c.drop_first());
        }
    }
}

/// Decides `str_le` on string slices.
pub fn str_le_exec(a: &str, b: &str) -> (r: bool)
    ensures
        r == str_le(a@, b@),
    decreases a@.len(),
{
    let an = a.unicode_len();
    let bn = b.unicode_len();
    if an == 0 {
        true
    } else if bn == 0 {
        false
    } else {
        let ca = a.get_char(0);
        let cb = b.get_char(0);
        if (ca as u32) < (cb as u32) {
            true
        } else if (ca as u32) > (cb as u32) {
            false
        } else {
            let ra = a.substring_char(1, an);
            let rb = b.substring_char(1, bn);
            proof {
                assert(ra@ =~= a@.drop_first());
                assert(rb@ =~= b@.drop_first());
            }
            str_le_exec(ra, rb)
        }
    }
}

pub open spec fn is_digit(c: char) -> bool {
    ('0' as u32) <= (c as u32) <= ('9' as u32)
}

pub fn is_digit_exec(c: char) -> (r: bool)
    ensures
        r == is_digit(c),
{
    let v = c as u32;
    ('0' as u32) <= v && v <= ('9' as u32)
}

/// The numeric value of one decimal digit character.
pub open spec fn digit_val(c: char) -> int {
    (c as u32) - ('0' as u32)
}

/// The decimal digit character for `n`, `0 <= n < 16` (hex digits included,
/// for escape sequences).
pub open spec fn digit_char(n: int) -> char {
    if n == 0 {
        '0'
    } else if n == 1 {
        '1'
    } else if n == 2 {
        '2'
    } else if n == 3 {
        '3'
    } else if n == 4 {
        '4'
    } else if n == 5 {
        '5'
    } else if n == 6 {
        '6'
    } else if n == 7 {
        '7'
    } else if n == 8 {
        '8'
    } else if n == 9 {
        '9'
    } else if n == 10 {
        'a'
    } else if n == 11 {
        'b'
    } else if n == 12 {
        'c'
    } else if n == 13 {
        'd'
    } else if n == 14 {
        'e'
    } else {
        'f'
    }
}

/// A one-character string slice for the digit `n`.
pub fn digit_str(n: u64) -> (r: &'static str)
    requires
        n < 16,
    ensures
        r@ =~= seq![digit_char(n as int)],
{
    proof {
        reveal_strlit("0");
        reveal_strlit("1");
        reveal_strlit("2");
        reveal_strlit("3");
        reveal_strlit("4");
        reveal_strlit("5");
        reveal_strlit("6");
        reveal_strlit("7");
        reveal_strlit("8");
        reveal_strlit("9");
        reveal_strlit("a");
        reveal_strlit("b");
        reveal_strlit("c");
        reveal_strlit("d");
        reveal_strlit("e");
        reveal_strlit("f");
    }
    if n == 0 {
        "0"
    } else if n == 1 {
        "1"
    } else if n == 2 {
        "2"
    } else if n == 3 {
        "3"
    } else if n == 4 {
        "4"
    } else if n == 5 {
        "5"
    } else if n == 6 {
        "6"
    } else if n == 7 {
        "7"
    } else if n == 8 {
        "8"
    } else if n == 9 {
        "9"
    } else if n == 10 {
        "a"
    } else if n == 11 {
        "b"
    } else if n == 12 {
        "c"
    } else if n == 13 {
        "d"
    } else if n == 14 {
        "e"
    } else {
        "f"
    }
}

/// The decimal expansion of a natural number, most significant digit first.
pub open spec fn dec_nat(n: nat) -> Seq<char>
    decreases n,
{
    if n < 10 {
        seq![digit_char(n as int)]
    } else {
        dec_nat(n / 10).push(digit_char((n % 10) as int))
    }
}

/// The decimal expansion of an integer, with a leading minus sign when negative.
pub open spec fn dec_int(n: int) -> Seq<char> {
    if n < 0 {
        seq!['-'].add(dec_nat((-n) as nat))
    } else {
        dec_nat(n as nat)
    }
}

pub fn u64_to_string(n: u64) -> (s: String)
    ensures
        s@ == dec_nat(n as nat),
    decreases n,
{
    if n < 10 {
        let d = digit_str(n);
        let s = d.to_owned();
        proof {
            assert(s@ =~= dec_nat(n as nat));
        }
        s
    } else {
        let mut s = u64_to_string(n / 10);
        s.append(digit_str(n % 10));
        proof {
            assert(s@ =~= dec_nat(n as nat));
        }
        s
    }
}

pub fn i64_to_string(n: i64) -> (s: String)
    ensures
        s@ == dec_int(n as int),
{
    if n >= 0 {
        u64_to_string(n as u64)
    } else {
        let mag: u64 = ((-(n as i128)) as u64);
        let mut s = "-".to_owned();
        proof {
            reveal_strlit("-");
            assert(s@ =~= seq!['-']);
        }
        s.append(u64_to_string(mag).as_str());
        proof {
            assert(s@ =~= dec_int(n as int));
        }
        s
    }
}

/// Appends the decimal expansion of `n`, left-padded with zeros to two digits.
pub open spec fn pad2(n: int) -> Seq<char> {
    seq![digit_char(n / 10), digit_char(n % 10)]
}

pub fn pad2_exec(n: u64) -> (s: String)
    requires
        n < 100,
    ensures
        s@ == pad2(n as int),
{
    let mut s = digit_str(n / 10).to_owned();
    s.append(digit_str(n % 10));
    proof {
        assert(s@ =~= pad2(n as int));
    }
    s
}

/// The decimal expansion of `n`, left-padded with zeros to four digits.
pub open spec fn pad4(n: int) -> Seq<char> {
    seq![
        digit_char(n / 1000),
        digit_char((n / 100) % 10),
        digit_char((n / 10) % 10),
        digit_char(n % 10),
    ]
}

pub fn pad4_exec(n: u64) -> (s: String)
    requires
        n < 10000,
    ensures
        s@ == pad4(n as int),
{
    let mut s = digit_str(n / 1000).to_owned();
    s.append(digit_str((n / 100) % 10));
    s.append(digit_str((n / 10) % 10));
    s.append(digit_str(n % 10));
    proof {
        assert(s@ =~= pad4(n as int));
    }
    s
}

/// The end of the run of digit characters starting at `i`.
pub open spec fn digit_run_end(s: Seq<char>, i: int) -> int
    decreases s.len() - i,
{
    if 0 <= i < s.len() && is_digit(s[i]) {
        digit_run_end(s, i + 1)
    } else {
        i
    }
}

#[verifier::loop_isolation(false)]
fn digit_run_end_exec(s: &str, i: usize) -> (r: usize)
    requires
        i <= s@.len(),
    ensures
        r == digit_run_end(s@, i as int),
        i <= r <= s@.len(),
{
    let n = s.unicode_len();
    let mut j: usize = i;
    while j < n && is_digit_exec(s.get_char(j))
        invariant
            i <= j <= n,
            digit_run_end(s@, i as int) == digit_run_end(s@, j as int),
        decreases n - j,
    {
        j += 1;
    }
    j
}

/// An exponent part stands at `e`: `e` or `E`, an optional sign, then
/// digits through the end of the literal.
pub open spec fn exp_ok_at(s: Seq<char>, e: int) -> bool {
    &&& 0 <= e < s.len()
    &&& (s[e] == 'e' || s[e] == 'E')
    &&& {
        let k = if e + 1 < s.len() && (s[e + 1] == '+' || s[e + 1] == '-') {
            e + 2
        } else {
            e + 1
        };
        k < s.len() && digit_run_end(s, k) == s.len()
    }
}

#[verifier::loop_isolation(false)]
fn exp_check(s: &str, e: usize) -> (r: bool)
    requires
        e < s@.len(),
    ensures
        r == exp_ok_at(s@, e as int),
{
    let n = s.unicode_len();
    let c = s.get_char(e);
    if c != 'e' && c != 'E' {
        return false;
    }
    let k: usize = if e + 1 < n && (s.get_char(e + 1) == '+' || s.get_char(e + 1) == '-') {
        e + 2
    } else {
        e + 1
    };
    if k >= n {
        return false;
    }
    digit_run_end_exec(s, k) == n
}

/// The literal grammar for unsigned number fields, JSON's: an integer
/// part without superfluous leading zeros, an optional dot with at
/// least one fractional digit, and an optional exponent part.
pub open spec fn is_unsigned_number_lit(s: Seq<char>) -> bool {
    let a = digit_run_end(s, 0);
    &&& 0 < a
    &&& (a == 1 || s[0] != '0')
    &&& {
        ||| a == s.len()
        ||| exp_ok_at(s, a)
        ||| (a < s.len() && s[a] == '.' && {
            let f = digit_run_end(s, a + 1);
            &&& f > a + 1
            &&& (f == s.len() || exp_ok_at(s, f))
        })
    }
}

/// The literal grammar for number fields: an optional minus sign, then
/// an unsigned literal — exactly the JSON number grammar.
pub open spec fn is_number_lit(s: Seq<char>) -> bool {
    if s.len() > 0 && s[0] == '-' {
        is_unsigned_number_lit(s.drop_first())
    } else {
        is_unsigned_number_lit(s)
    }
}

fn check_unsigned_number(s: &str) -> (r: bool)
    ensures
        r == is_unsigned_number_lit(s@),
{
    let n = s.unicode_len();
    let a = digit_run_end_exec(s, 0);
    if a == 0 {
        return false;
    }
    if a >= 2 && s.get_char(0) == '0' {
        return false;
    }
    if a == n {
        return true;
    }
    if s.get_char(a) == '.' {
        let f = digit_run_end_exec(s, a + 1);
        if f == a + 1 {
            return false;
        }
        if f == n {
            return true;
        }
        return exp_check(s, f);
    }
    exp_check(s, a)
}

/// Decides whether `s` is a well-formed number literal.
pub fn is_number_lit_exec(s: &str) -> (r: bool)
    ensures
        r == is_number_lit(s@),
{
    let n = s.unicode_len();
    if n > 0 && s.get_char(0) == '-' {
        let rest = s.substring_char(1, n);
        proof {
            assert(rest@ =~= s@.drop_first());
        }
        check_unsigned_number(rest)
    } else {
        check_unsigned_number(s)
    }
}

} // verus!
