//! Rendering of generated identifiers: the decimal digits of a counter,
//! appended to a short prefix.

use vstd::prelude::*;

verus! {

/// The digit character of a value below ten.
pub open spec fn digit_char(d: int) -> char {
    if d == 0 {
        '0'
    } else if d == 1 {
        '1'
    } else if d == 2 {
        '2'
    } else if d == 3 {
        '3'
    } else if d == 4 {
        '4'
    } else if d == 5 {
        '5'
    } else if d == 6 {
        '6'
    } else if d == 7 {
        '7'
    } else if d == 8 {
        '8'
    } else {
        '9'
    }
}

/// The decimal digits of a number, most significant first.
pub open spec fn dec_rep(n: nat) -> Seq<char>
    decreases n,
{
    if n < 10 {
        seq![digit_char(n as int)]
    } else {
        dec_rep(n / 10).push(digit_char((n % 10) as int))
    }
}

/// One decimal digit as text.
fn digit_str(d: usize) -> (s: &'static str)
    requires
        d < 10,
    ensures
        s@ == seq![digit_char(d as int)],
{
    proof {
        reveal_strlit("0");
        reveal_strlit("1");
        reveal_strlit("2");
        reveal_strlit("3");
        reveal_strlit("4");
        reveal_strlit("5");
        reveal_strlit("6");
        reveal_strlit("7");
        reveal_strlit("8");
        reveal_strlit("9");
    }
    let s = match d {
        0 => "0",
        1 => "1",
        2 => "2",
        3 => "3",
        4 => "4",
        5 => "5",
        6 => "6",
        7 => "7",
        8 => "8",
        _ => "9",
    };
    assert(s@ =~= seq![digit_char(d as int)]);
    s
}

/// Appends the decimal digits of `n` to `out`.
pub fn push_decimal(out: &mut String, n: usize)
    ensures
        final(out)@ == old(out)@ + dec_rep(n as nat),
    decreases n,
{
    if n >= 10 {
        push_decimal(out, n / 10);
        out.append(digit_str(n % 10));
        assert(out@ =~= old(out)@ + dec_rep(n as nat));
    } else {
        out.append(digit_str(n));
        assert(out@ =~= old(out)@ + dec_rep(n as nat));
    }
}

/// The least number of single-character edits (insert, delete, replace)
/// turning `a` into `b`.
pub open spec fn lev_dist(a: Seq<char>, b: Seq<char>) -> nat
    decreases a.len() + b.len(),
{
    if a.len() == 0 {
        b.len()
    } else if b.len() == 0 {
        a.len()
    } else if a[0] == b[0] {
        lev_dist(a.subrange(1, a.len() as int), b.subrange(1, b.len() as int))
    } else {
        1 + min3(
            lev_dist(a.subrange(1, a.len() as int), b),
            lev_dist(a, b.subrange(1, b.len() as int)),
            lev_dist(a.subrange(1, a.len() as int), b.subrange(1, b.len() as int)),
        )
    }
}

/// The least of three values.
pub open spec fn min3(x: nat, y: nat, z: nat) -> nat {
    if x <= y && x <= z {
        x
    } else if y <= z {
        y
    } else {
        z
    }
}

/// The edit distance never exceeds the two lengths together.
pub proof fn lemma_lev_dist_bound(a: Seq<char>, b: Seq<char>)
    ensures
        lev_dist(a, b) <= a.len() + b.len(),
    decreases a.len() + b.len(),
{
    if a.len() == 0 || b.len() == 0 {
    } else if a[0] == b[0] {
        lemma_lev_dist_bound(a.subrange(1, a.len() as int), b.subrange(1, b.len() as int));
    } else {
        lemma_lev_dist_bound(a.subrange(1, a.len() as int), b);
        lemma_lev_dist_bound(a, b.subrange(1, b.len() as int));
        lemma_lev_dist_bound(a.subrange(1, a.len() as int), b.subrange(1, b.len() as int));
    }
}

/// The edit distance of the suffixes of `a` and `b` from `ai` and `bi` on.
fn edit_distance_from(a: &str, b: &str, ai: usize, bi: usize) -> (d: usize)
    requires
        ai <= a@.len() <= usize::MAX / 4,
        bi <= b@.len() <= usize::MAX / 4,
    ensures
        d == lev_dist(
            a@.subrange(ai as int, a@.len() as int),
            b@.subrange(bi as int, b@.len() as int),
        ),
    decreases a@.len() - ai + b@.len() - bi,
{
    let la = a.unicode_len();
    let lb = b.unicode_len();
    let ghost sa = a@.subrange(ai as int, a@.len() as int);
    let ghost sb = b@.subrange(bi as int, b@.len() as int);
    proof {
        lemma_lev_dist_bound(sa, sb);
    }
    if ai == la {
        return lb - bi;
    }
    if bi == lb {
        return la - ai;
    }
    proof {
        assert(sa[0] == a@[ai as int]);
        assert(sb[0] == b@[bi as int]);
        assert(sa.subrange(1, sa.len() as int) =~= a@.subrange(ai as int + 1, a@.len() as int));
        assert(sb.subrange(1, sb.len() as int) =~= b@.subrange(bi as int + 1, b@.len() as int));
    }
    let ca = a.get_char(ai);
    let cb = b.get_char(bi);
    if ca == cb {
        return edit_distance_from(a, b, ai + 1, bi + 1);
    }
    let d1 = edit_distance_from(a, b, ai + 1, bi);
    let d2 = edit_distance_from(a, b, ai, bi + 1);
    let d3 = edit_distance_from(a, b, ai + 1, bi + 1);
    proof {
        lemma_lev_dist_bound(a@.subrange(ai as int + 1, a@.len() as int), sb);
    }
    let m = if d1 <= d2 && d1 <= d3 {
        d1
    } else if d2 <= d3 {
        d2
    } else {
        d3
    };
    1 + m
}

/// The least number of single-character edits turning `a` into `b`.
pub fn edit_distance(a: &str, b: &str) -> (d: usize)
    requires
        a@.len() <= usize::MAX / 4,
        b@.len() <= usize::MAX / 4,
    ensures
        d == lev_dist(a@, b@),
{
    proof {
        assert(a@.subrange(0, a@.len() as int) =~= a@);
        assert(b@.subrange(0, b@.len() as int) =~= b@);
    }
    edit_distance_from(a, b, 0, 0)
}

/// Whether `needle` occurs contiguously inside `hay`.
pub open spec fn is_substring(hay: Seq<char>, needle: Seq<char>) -> bool {
    exists|i: int|
        0 <= i <= hay.len() - needle.len() && #[trigger] hay.subrange(i, i + needle.len() as int)
            == needle
}

/// Decides [`is_substring`].
#[verifier::loop_isolation(false)]
pub fn contains_str(hay: &String, needle: &String) -> (r: bool)
    ensures
        r == is_substring(hay@, needle@),
{
    let hl = hay.as_str().unicode_len();
    let nl = needle.as_str().unicode_len();
    if nl > hl {
        proof {
            if is_substring(hay@, needle@) {
                let w = choose|w: int|
                    0 <= w <= hay@.len() - needle@.len() && #[trigger] hay@.subrange(
                        w,
                        w + needle@.len() as int,
                    ) == needle@;
                assert(false);
            }
        }
        return false;
    }
    let mut i: usize = 0;
    while i <= hl - nl
        invariant
            hl == hay@.len(),
            nl == needle@.len(),
            nl <= hl,
            i <= hl - nl + 1,
            forall|k: int|
                0 <= k < i ==> #[trigger] hay@.subrange(k, k + needle@.len() as int) != needle@,
        decreases hl + 1 - nl - i,
    {
        let mut j: usize = 0;
        let mut all_eq = true;
        while j < nl
            invariant
                j <= nl,
                i + nl <= hl,
                all_eq == (forall|k: int| 0 <= k < j ==> hay@[i + k] == #[trigger] needle@[k]),
            decreases nl - j,
        {
            let hc = hay.as_str().get_char(i + j);
            let nc = needle.as_str().get_char(j);
            if !(hc == nc) {
                all_eq = false;
                proof {
                    assert(hay@[i + j as int] != needle@[j as int]);
                }
                j = nl;
            } else {
                proof {
                    if all_eq {
                        assert(forall|k: int|
                            0 <= k < j + 1 ==> hay@[i + k] == #[trigger] needle@[k]);
                    } else {
                        let k = choose|k: int|
                            0 <= k < j && hay@[i + k] != #[trigger] needle@[k];
                        assert(hay@[i + k] != needle@[k]);
                    }
                }
                j += 1;
            }
        }
        if all_eq {
            proof {
                assert(hay@.subrange(i as int, i + needle@.len() as int) =~= needle@);
            }
            return true;
        }
        proof {
            if hay@.subrange(i as int, i + needle@.len() as int) == needle@ {
                let k = choose|k: int| 0 <= k < nl && hay@[i + k] != needle@[k];
                assert(hay@.subrange(i as int, i + needle@.len() as int)[k] == hay@[i + k]);
            }
        }
        i += 1;
    }
    proof {
        if is_substring(hay@, needle@) {
            let w = choose|w: int|
                0 <= w <= hay@.len() - needle@.len() && #[trigger] hay@.subrange(
                    w,
                    w + needle@.len() as int,
                ) == needle@;
            assert(w < i);
        }
    }
    false
}

} // verus!
