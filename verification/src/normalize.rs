//! Output normalization: every whitespace run immediately before an opening
//! parenthesis, and every whitespace run immediately after a closing
//! parenthesis, is removed, wherever it stands in the frame.  This compacts
//! nested-parenthesis output however the templates were indented.
use crate::text::is_ws;
use vstd::prelude::*;

verus! {

/// Whether an opening parenthesis is reachable from position `i` rightwards
/// through whitespace only (`i` itself included).
pub open spec fn opens(s: Seq<char>, i: int) -> bool
    decreases s.len() - i,
{
    if i < 0 || i >= s.len() {
        false
    } else if s[i] == '(' {
        true
    } else if is_ws(s[i]) {
        opens(s, i + 1)
    } else {
        false
    }
}

/// The normalized remainder of `s` from position `i` on; `after_close` says
/// whether the last non-whitespace character before `i` was a closing
/// parenthesis.  A whitespace character is dropped exactly when it follows a
/// closing parenthesis through whitespace, or leads to an opening parenthesis
/// through whitespace.
pub open spec fn norm_from(s: Seq<char>, i: int, after_close: bool) -> Seq<char>
    decreases s.len() - i,
{
    if i < 0 || i >= s.len() {
        Seq::empty()
    } else if is_ws(s[i]) && (after_close || opens(s, i + 1)) {
        norm_from(s, i + 1, after_close)
    } else if is_ws(s[i]) {
        seq![s[i]] + norm_from(s, i + 1, after_close)
    } else {
        seq![s[i]] + norm_from(s, i + 1, s[i] == ')')
    }
}

/// The whole normalized text.
pub open spec fn normalize_spec(s: Seq<char>) -> Seq<char> {
    norm_from(s, 0, false)
}

/// Removes whitespace runs before `(` and after `)`.
pub fn normalize(s: &Vec<char>) -> (r: Vec<char>)
    ensures
        r@ == normalize_spec(s@),
{
    // opens_at[i] says whether `(` is reachable rightwards through
    // whitespace from position i
    let mut opens_at: Vec<bool> = Vec::new();
    let n = s.len();
    let mut i: usize = n;
    // fill a reversed table first: opens_rev[k] == opens(s, n - 1 - k)
    while i > 0
        invariant
            0 <= i <= n,
            n == s@.len(),
            opens_at@.len() == n - i,
            forall|k: int| 0 <= k < n - i ==> opens_at@[k] == opens(s@, n - 1 - k),
        decreases i,
    {
        i = i - 1;
        let here: bool = if s[i] == '(' {
            true
        } else if is_ws_exec(s[i]) {
            if i + 1 < n {
                opens_at[n - i - 2]
            } else {
                false
            }
        } else {
            false
        };
        proof {
            let ii = i as int;
            if s@[ii] == '(' {
                assert(opens(s@, ii));
            } else if is_ws(s@[ii]) {
                assert(opens(s@, ii) == opens(s@, ii + 1));
                if i + 1 < n {
                    assert(opens_at@[n - 2 - ii] == opens(s@, n - 1 - (n - 2 - ii)));
                    assert(n - 1 - (n - 2 - ii) == ii + 1);
                } else {
                    assert(!opens(s@, ii + 1));
                }
            } else {
                assert(!opens(s@, ii));
            }
            assert(here == opens(s@, ii));
        }
        let ghost prev = opens_at@;
        opens_at.push(here);
        proof {
            assert forall|k: int| 0 <= k < n - i implies opens_at@[k] == opens(
                s@,
                n - 1 - k,
            ) by {
                if k < n - i - 1 {
                    assert(opens_at@[k] == prev[k]);
                } else {
                    assert(opens_at@[k] == here && n - 1 - k == i as int);
                }
            }
        }
    }
    let mut r: Vec<char> = Vec::new();
    let mut after_close = false;
    let mut j: usize = 0;
    proof {
        assert(r@ + norm_from(s@, 0, false) =~= norm_from(s@, 0, false));
    }
    while j < n
        invariant
            0 <= j <= n,
            n == s@.len(),
            opens_at@.len() == n,
            forall|k: int| 0 <= k < n ==> opens_at@[k] == opens(s@, n - 1 - k),
            r@ + norm_from(s@, j as int, after_close) == norm_from(s@, 0, false),
        decreases n - j,
    {
        let c = s[j];
        let next_opens: bool = if j + 1 < n {
            opens_at[n - j - 2]
        } else {
            false
        };
        proof {
            assert(next_opens == opens(s@, j as int + 1));
        }
        let ghost old_r = r@;
        if is_ws_exec(c) && (after_close || next_opens) {
            // dropped
        } else if is_ws_exec(c) {
            r.push(c);
            proof {
                assert(r@ =~= old_r + seq![s@[j as int]]);
                assert((old_r + seq![s@[j as int]]) + norm_from(s@, j as int + 1, after_close)
                    =~= old_r + (seq![s@[j as int]] + norm_from(s@, j as int + 1, after_close)));
            }
        } else {
            r.push(c);
            proof {
                assert(r@ =~= old_r + seq![s@[j as int]]);
                assert((old_r + seq![s@[j as int]]) + norm_from(s@, j as int + 1, s@[j as int] == ')')
                    =~= old_r + (seq![s@[j as int]] + norm_from(
                    s@,
                    j as int + 1,
                    s@[j as int] == ')',
                )));
            }
            after_close = c == ')';
        }
        j = j + 1;
    }
    proof {
        assert(r@ + Seq::<char>::empty() =~= r@);
    }
    r
}

/// Whitespace test on a character.
fn is_ws_exec(c: char) -> (r: bool)
    ensures
        r == is_ws(c),
{
    c == ' ' || c == '\t' || c == '\n' || c == '\r' || c == '\x0b' || c == '\x0c'
}

/// No whitespace stands immediately before an opening parenthesis or
/// immediately after a closing one.
pub open spec fn compact(t: Seq<char>) -> bool {
    forall|i: int|
        0 <= i < t.len() - 1 ==> !(is_ws(#[trigger] t[i]) && t[i + 1] == '(') && !(t[i] == ')'
            && is_ws(t[i + 1]))
}

/// In compact text, a whitespace chain to `(` can only start at `(` itself.
proof fn lemma_opens_compact(t: Seq<char>, j: int)
    requires
        compact(t),
        opens(t, j),
    ensures
        0 <= j < t.len() && t[j] == '(',
    decreases t.len() - j,
{
    if !(j < 0 || j >= t.len()) && t[j] != '(' && is_ws(t[j]) {
        lemma_opens_compact(t, j + 1);
    }
}

/// The normalizer always produces compact text; moreover nothing it emits
/// right after a closing parenthesis is whitespace, and its output starts
/// with `(` only where an opening parenthesis was reachable.
proof fn lemma_norm_compact(s: Seq<char>, i: int, after_close: bool)
    ensures
        compact(norm_from(s, i, after_close)),
        after_close && norm_from(s, i, after_close).len() > 0 ==> !is_ws(
            norm_from(s, i, after_close)[0],
        ),
        norm_from(s, i, after_close).len() > 0 && norm_from(s, i, after_close)[0] == '(' ==> opens(
            s,
            i,
        ),
    decreases s.len() - i,
{
    if i < 0 || i >= s.len() {
    } else {
        let c = s[i];
        if is_ws(c) && (after_close || opens(s, i + 1)) {
            lemma_norm_compact(s, i + 1, after_close);
        } else if is_ws(c) {
            lemma_norm_compact(s, i + 1, after_close);
            let rest = norm_from(s, i + 1, after_close);
            let r = seq![c] + rest;
            if rest.len() > 0 {
                // `rest` cannot start with `(`: an opening parenthesis
                // reachable from i + 1 would have made this character drop
                assert(rest[0] != '(');
            }
            assert(compact(r)) by {
                assert forall|k: int| 0 <= k < r.len() - 1 implies !(is_ws(#[trigger] r[k]) && r[k
                    + 1] == '(') && !(r[k] == ')' && is_ws(r[k + 1])) by {
                    if k > 0 {
                        assert(r[k] == rest[k - 1] && r[k + 1] == rest[k]);
                    } else {
                        assert(r[0] == c && r[1] == rest[0]);
                    }
                }
            }
        } else {
            lemma_norm_compact(s, i + 1, c == ')');
            let rest = norm_from(s, i + 1, c == ')');
            let r = seq![c] + rest;
            assert(compact(r)) by {
                assert forall|k: int| 0 <= k < r.len() - 1 implies !(is_ws(#[trigger] r[k]) && r[k
                    + 1] == '(') && !(r[k] == ')' && is_ws(r[k + 1])) by {
                    if k > 0 {
                        assert(r[k] == rest[k - 1] && r[k + 1] == rest[k]);
                    } else {
                        assert(r[0] == c && r[1] == rest[0]);
                        if c == ')' {
                            assert(!is_ws(rest[0]));
                        }
                    }
                }
            }
        }
    }
}

/// On compact text the normalizer is the identity.
proof fn lemma_norm_fixed(t: Seq<char>, i: int, after_close: bool)
    requires
        compact(t),
        0 <= i <= t.len(),
        after_close && i < t.len() ==> !is_ws(t[i]),
    ensures
        norm_from(t, i, after_close) == t.skip(i),
    decreases t.len() - i,
{
    if i >= t.len() {
        assert(t.skip(i) =~= Seq::<char>::empty());
    } else {
        let c = t[i];
        if is_ws(c) {
            assert(!after_close);
            if opens(t, i + 1) {
                lemma_opens_compact(t, i + 1);
                assert(is_ws(t[i]) && t[i + 1] == '(');
                assert(false);
            }
            lemma_norm_fixed(t, i + 1, after_close);
            assert(seq![c] + t.skip(i + 1) =~= t.skip(i));
        } else {
            if c == ')' && i + 1 < t.len() {
                assert(!is_ws(t[i + 1]));
            }
            lemma_norm_fixed(t, i + 1, c == ')');
            assert(seq![c] + t.skip(i + 1) =~= t.skip(i));
        }
    }
}

/// Normalization is idempotent: applying it twice produces what applying it
/// once does.
pub proof fn lemma_normalize_idempotent(s: Seq<char>)
    ensures
        normalize_spec(normalize_spec(s)) == normalize_spec(s),
{
    let t = normalize_spec(s);
    lemma_norm_compact(s, 0, false);
    lemma_norm_fixed(t, 0, false);
    assert(t.skip(0) =~= t);
}

} // verus!
