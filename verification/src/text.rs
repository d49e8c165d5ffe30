//! Character-string primitives shared by the renderer and the event parser.
//!
//! All text in the library is a sequence of `char`s (`Vec<char>` in
//! executable code, `Seq<char>` in specifications), so specifications can
//! speak about individual characters exactly.
use vstd::prelude::*;

verus! {

/// The decimal digit character for a value in `0..10`.
pub open spec fn digit_char(d: int) -> char {
    if d == 0 {
        '0'
    } else if d == 1 {
        '1'
    } else if d == 2 {
        '2'
    } else if d == 3 {
        '3'
    } else if d == 4 {
        '4'
    } else if d == 5 {
        '5'
    } else if d == 6 {
        '6'
    } else if d == 7 {
        '7'
    } else if d == 8 {
        '8'
    } else {
        '9'
    }
}

/// The numeric value of a decimal digit character, or -1 for any other char.
pub open spec fn digit_val(c: char) -> int {
    if c == '0' {
        0
    } else if c == '1' {
        1
    } else if c == '2' {
        2
    } else if c == '3' {
        3
    } else if c == '4' {
        4
    } else if c == '5' {
        5
    } else if c == '6' {
        6
    } else if c == '7' {
        7
    } else if c == '8' {
        8
    } else if c == '9' {
        9
    } else {
        -1
    }
}

pub open spec fn is_digit(c: char) -> bool {
    digit_val(c) >= 0
}

/// The decimal digits of a non-negative number, most significant first.
pub open spec fn dec_spec(n: int) -> Seq<char>
    decreases n,
{
    if n < 10 {
        seq![digit_char(n)]
    } else {
        dec_spec(n / 10).push(digit_char(n % 10))
    }
}

/// Renders a workspace id as decimal digits.
pub fn dec_u8(n: u8) -> (r: Vec<char>)
    ensures
        r@ == dec_spec(n as int),
{
    let mut r: Vec<char> = Vec::new();
    if n >= 100 {
        r.push(digit_of(n / 100));
    }
    if n >= 10 {
        r.push(digit_of((n / 10) % 10));
    }
    r.push(digit_of(n % 10));
    proof {
        if n < 10 {
            assert(r@ =~= dec_spec(n as int));
        } else if n < 100 {
            assert(dec_spec(n as int) == dec_spec(n as int / 10).push(digit_char(n as int % 10)));
            assert(n as int / 10 < 10);
            assert((n / 10) % 10 == n / 10) by (nonlinear_arith)
                requires 10 <= n < 100,
            ;
            assert(r@ =~= dec_spec(n as int));
        } else {
            let ghost q = n as int / 10;
            assert(dec_spec(n as int) == dec_spec(q).push(digit_char(n as int % 10)));
            vstd::arithmetic::div_mod::lemma_fundamental_div_mod(n as int, 10);
            assert(10 <= q < 26);
            assert(dec_spec(q) == dec_spec(q / 10).push(digit_char(q % 10)));
            vstd::arithmetic::div_mod::lemma_div_denominator(n as int, 10, 10);
            assert(q / 10 == n as int / 100);
            vstd::arithmetic::div_mod::lemma_fundamental_div_mod(q, 10);
            assert(q / 10 < 10);
            assert(q == (n / 10) as int && q % 10 == ((n / 10) % 10) as int);
            assert(r@ =~= dec_spec(n as int));
        }
    }
    r
}

/// The digit character for a value below ten.
pub fn digit_of(d: u8) -> (c: char)
    requires
        d < 10,
    ensures
        c == digit_char(d as int),
{
    if d == 0 {
        '0'
    } else if d == 1 {
        '1'
    } else if d == 2 {
        '2'
    } else if d == 3 {
        '3'
    } else if d == 4 {
        '4'
    } else if d == 5 {
        '5'
    } else if d == 6 {
        '6'
    } else if d == 7 {
        '7'
    } else if d == 8 {
        '8'
    } else {
        '9'
    }
}

/// A non-empty, all-digits character sequence.
pub open spec fn all_digits(s: Seq<char>) -> bool {
    s.len() > 0 && forall|i: int| 0 <= i < s.len() ==> is_digit(#[trigger] s[i])
}

/// The numeric value of a digit string, most significant digit first.
pub open spec fn num_spec(s: Seq<char>) -> int
    decreases s.len(),
{
    if s.len() == 0 {
        0
    } else {
        num_spec(s.drop_last()) * 10 + digit_val(s.last())
    }
}

pub proof fn lemma_num_nonneg(s: Seq<char>)
    requires
        forall|i: int| 0 <= i < s.len() ==> is_digit(#[trigger] s[i]),
    ensures
        num_spec(s) >= 0,
    decreases s.len(),
{
    if s.len() > 0 {
        lemma_num_nonneg(s.drop_last());
        assert(num_spec(s.drop_last()) * 10 >= 0) by (nonlinear_arith)
            requires num_spec(s.drop_last()) >= 0,
        ;
    }
}

/// Extending a digit string on the right never shrinks its value.
pub proof fn lemma_num_prefix(s: Seq<char>, i: int)
    requires
        forall|k: int| 0 <= k < s.len() ==> is_digit(#[trigger] s[k]),
        0 <= i <= s.len(),
    ensures
        num_spec(s.take(i)) <= num_spec(s),
    decreases s.len() - i,
{
    if i < s.len() {
        lemma_num_prefix(s, i + 1);
        let p = s.take(i);
        let q = s.take(i + 1);
        assert(q.drop_last() =~= p);
        lemma_num_nonneg(p);
        assert(num_spec(p) * 10 >= num_spec(p)) by (nonlinear_arith)
            requires num_spec(p) >= 0,
        ;
        assert(num_spec(q) == num_spec(p) * 10 + digit_val(q.last()));
    } else {
        assert(s.take(i) =~= s);
    }
}

/// Parses a decimal workspace id, exactly when the whole input is a
/// non-empty digit string whose value fits in a `u8`.
pub fn parse_u8(s: &Vec<char>) -> (r: Option<u8>)
    ensures
        r is Some <==> all_digits(s@) && num_spec(s@) <= 255,
        r is Some ==> r->0 as int == num_spec(s@),
{
    if s.len() == 0 {
        return None;
    }
    let mut acc: u16 = 0;
    let mut i: usize = 0;
    while i < s.len()
        invariant
            0 <= i <= s@.len(),
            forall|k: int| 0 <= k < i ==> is_digit(#[trigger] s@[k]),
            acc as int == num_spec(s@.take(i as int)),
            acc <= 255,
        decreases s@.len() - i,
    {
        let c = s[i];
        let d: u16 = if c == '0' {
            0
        } else if c == '1' {
            1
        } else if c == '2' {
            2
        } else if c == '3' {
            3
        } else if c == '4' {
            4
        } else if c == '5' {
            5
        } else if c == '6' {
            6
        } else if c == '7' {
            7
        } else if c == '8' {
            8
        } else if c == '9' {
            9
        } else {
            return None;
        };
        proof {
            assert(s@.take(i as int + 1).drop_last() =~= s@.take(i as int));
        }
        if acc > 25 || (acc == 25 && d > 5) {
            proof {
                if all_digits(s@) {
                    assert(num_spec(s@.take(i as int + 1)) > 255);
                    lemma_num_prefix(s@, i as int + 1);
                }
            }
            return None;
        }
        acc = acc * 10 + d;
        i = i + 1;
    }
    proof {
        assert(s@.take(s@.len() as int) =~= s@);
    }
    Some(acc as u8)
}

/// Whether `pat` occurs in `s` starting at position `i`.
pub open spec fn match_at(s: Seq<char>, pat: Seq<char>, i: int) -> bool {
    0 <= i && i + pat.len() <= s.len() && s.subrange(i, i + pat.len()) == pat
}

/// Executable occurrence test.
pub fn check_match(s: &Vec<char>, pat: &Vec<char>, i: usize) -> (r: bool)
    requires
        i <= s@.len(),
    ensures
        r == match_at(s@, pat@, i as int),
{
    if s.len() - i < pat.len() {
        proof {
            assert(!match_at(s@, pat@, i as int));
        }
        return false;
    }
    let mut k: usize = 0;
    while k < pat.len()
        invariant
            0 <= k <= pat@.len(),
            i + pat@.len() <= s@.len(),
            s@.len() == s.len() && pat@.len() == pat.len(),
            forall|j: int| 0 <= j < k ==> s@[i + j] == pat@[j],
        decreases pat@.len() - k,
    {
        if s[i + k] != pat[k] {
            proof {
                assert(s@.subrange(i as int, i + pat@.len()) != pat@) by {
                    assert(s@.subrange(i as int, i + pat@.len())[k as int] != pat@[k as int]);
                }
            }
            return false;
        }
        k = k + 1;
    }
    proof {
        assert(s@.subrange(i as int, i + pat@.len()) =~= pat@);
    }
    true
}

/// Textual substitution: every occurrence of `pat` in `s`, scanned left to
/// right without overlap, is replaced by `rep`; the replacement text itself
/// is not rescanned.  An empty pattern leaves the text unchanged.
pub open spec fn replace_spec(s: Seq<char>, pat: Seq<char>, rep: Seq<char>) -> Seq<char>
    decreases s.len(),
{
    if pat.len() == 0 || s.len() < pat.len() {
        s
    } else if s.take(pat.len() as int) == pat {
        rep + replace_spec(s.skip(pat.len() as int), pat, rep)
    } else {
        seq![s[0]] + replace_spec(s.skip(1), pat, rep)
    }
}

/// Replaces every occurrence of `pat` in `s` by `rep`.
pub fn replace_all(s: &Vec<char>, pat: &Vec<char>, rep: &Vec<char>) -> (r: Vec<char>)
    ensures
        r@ == replace_spec(s@, pat@, rep@),
{
    let mut r: Vec<char> = Vec::new();
    if pat.len() == 0 {
        return copy_chars(s);
    }
    let mut i: usize = 0;
    proof {
        assert(s@.skip(0) =~= s@);
        assert(Seq::<char>::empty() + replace_spec(s@, pat@, rep@) =~= replace_spec(
            s@,
            pat@,
            rep@,
        ));
    }
    while i < s.len()
        invariant
            0 <= i <= s@.len(),
            pat@.len() > 0,
            r@ + replace_spec(s@.skip(i as int), pat@, rep@) == replace_spec(s@, pat@, rep@),
        decreases s@.len() - i,
    {
        let ghost tail = s@.skip(i as int);
        if check_match(s, pat, i) {
            proof {
                assert(tail.take(pat@.len() as int) =~= s@.subrange(i as int, i + pat@.len()));
                assert(tail.skip(pat@.len() as int) =~= s@.skip(i + pat@.len()));
            }
            let ghost old_r = r@;
            let mut k: usize = 0;
            while k < rep.len()
                invariant
                    0 <= k <= rep@.len(),
                    r@ == old_r + rep@.take(k as int),
                decreases rep@.len() - k,
            {
                r.push(rep[k]);
                proof {
                    assert(old_r + rep@.take(k as int + 1) =~= r@);
                }
                k = k + 1;
            }
            proof {
                assert(old_r + rep@.take(rep@.len() as int) =~= old_r + rep@);
                assert((old_r + rep@) + replace_spec(s@.skip(i + pat@.len()), pat@, rep@) =~= old_r
                    + (rep@ + replace_spec(s@.skip(i + pat@.len()), pat@, rep@)));
            }
            i = i + pat.len();
        } else {
            proof {
                if tail.len() >= pat@.len() {
                    assert(tail.take(pat@.len() as int) =~= s@.subrange(i as int, i + pat@.len()));
                }
                assert(tail.skip(1) =~= s@.skip(i as int + 1));
                assert(tail[0] == s@[i as int]);
            }
            let ghost old_r = r@;
            r.push(s[i]);
            proof {
                assert(r@ =~= old_r + seq![s@[i as int]]);
                assert((old_r + seq![s@[i as int]]) + replace_spec(s@.skip(i as int + 1), pat@, rep@)
                    =~= old_r + (seq![s@[i as int]] + replace_spec(s@.skip(i as int + 1), pat@, rep@)));
            }
            i = i + 1;
        }
    }
    proof {
        assert(s@.skip(s@.len() as int) =~= Seq::<char>::empty());
        assert(r@ + Seq::<char>::empty() =~= r@);
    }
    r
}

/// ASCII whitespace, the set the renderer's normalization and the line
/// trimming agree on.
pub open spec fn is_ws(c: char) -> bool {
    c == ' ' || c == '\t' || c == '\n' || c == '\r' || c == '\x0b' || c == '\x0c'
}

/// Compares two character strings.
pub fn eq_chars(a: &Vec<char>, b: &Vec<char>) -> (r: bool)
    ensures
        r == (a@ == b@),
{
    if a.len() != b.len() {
        return false;
    }
    let mut i: usize = 0;
    while i < a.len()
        invariant
            0 <= i <= a@.len(),
            a@.len() == b@.len(),
            a@.len() == a.len() && b@.len() == b.len(),
            forall|k: int| 0 <= k < i ==> a@[k] == b@[k],
        decreases a@.len() - i,
    {
        if a[i] != b[i] {
            return false;
        }
        i = i + 1;
    }
    proof {
        assert(a@ =~= b@);
    }
    true
}

/// Copies a character string.
pub fn copy_chars(s: &Vec<char>) -> (r: Vec<char>)
    ensures
        r@ == s@,
{
    let mut r: Vec<char> = Vec::new();
    let mut i: usize = 0;
    while i < s.len()
        invariant
            0 <= i <= s@.len(),
            r@ == s@.take(i as int),
        decreases s@.len() - i,
    {
        r.push(s[i]);
        proof {
            assert(r@ =~= s@.take(i as int + 1));
        }
        i = i + 1;
    }
    proof {
        assert(s@.take(s@.len() as int) =~= s@);
    }
    r
}

/// Appends `tail` to `out`.
pub fn append_chars(out: &mut Vec<char>, tail: &Vec<char>)
    ensures
        final(out)@ == old(out)@ + tail@,
{
    let mut i: usize = 0;
    while i < tail.len()
        invariant
            0 <= i <= tail@.len(),
            out@ == old(out)@ + tail@.take(i as int),
        decreases tail@.len() - i,
    {
        out.push(tail[i]);
        proof {
            assert(old(out)@ + tail@.take(i as int + 1) =~= out@);
        }
        i = i + 1;
    }
    proof {
        assert(old(out)@ + tail@.take(tail@.len() as int) =~= old(out)@ + tail@);
    }
}

} // verus!
