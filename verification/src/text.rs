//! Text matching for the search mode: case-insensitive substring semantics
//! (ASCII folding, as the storage engine's `LIKE` applies it) and the crude
//! markup stripping that replaces angle brackets and the `&nbsp;` token by
//! spaces before memo content is matched.

use vstd::prelude::*;

verus! {

/// The code point of a character after ASCII case folding.
pub open spec fn fold_ci(c: char) -> int {
    if 65 <= c as u32 <= 90 {
        c as u32 + 32
    } else {
        c as u32 as int
    }
}

/// Two characters are equal up to ASCII case.
pub open spec fn eq_ci(a: char, b: char) -> bool {
    fold_ci(a) == fold_ci(b)
}

/// The needle `n` occurs in `h` at position `i`, up to ASCII case.
pub open spec fn match_at(h: Seq<char>, n: Seq<char>, i: int) -> bool {
    forall|j: int| 0 <= j < n.len() ==> eq_ci(h[i + j], #[trigger] n[j])
}

/// The needle `n` occurs somewhere in `h`, up to ASCII case.
pub open spec fn contains_ci(h: Seq<char>, n: Seq<char>) -> bool {
    exists|i: int| 0 <= i && i + n.len() <= h.len() && match_at(h, n, i)
}

fn eq_ci_exec(a: char, b: char) -> (r: bool)
    ensures
        r == eq_ci(a, b),
{
    let x: u32 = a as u32;
    let y: u32 = b as u32;
    let fx: u32 = if 65 <= x && x <= 90 {
        x + 32
    } else {
        x
    };
    let fy: u32 = if 65 <= y && y <= 90 {
        y + 32
    } else {
        y
    };
    fx == fy
}

/// Whether `n` occurs in `h` as a substring, up to ASCII case.
pub fn contains_ci_exec(h: &Vec<char>, n: &Vec<char>) -> (r: bool)
    ensures
        r == contains_ci(h@, n@),
{
    if n.len() > h.len() {
        return false;
    }
    let mut i: usize = 0;
    while i <= h.len() - n.len()
        invariant
            n@.len() <= h@.len(),
            i <= h@.len() - n@.len() + 1,
            forall|k: int| 0 <= k < i ==> !match_at(h@, n@, k),
        decreases h.len() - n.len() - i + 1,
    {
        let hl: usize = h.len();
        let mut j: usize = 0;
        let mut hit: bool = true;
        while hit && j < n.len()
            invariant
                hl == h@.len(),
                j <= n@.len(),
                i + n@.len() <= hl,
                hit ==> forall|t: int| 0 <= t < j ==> eq_ci(h@[i + t], #[trigger] n@[t]),
                !hit ==> !match_at(h@, n@, i as int),
            decreases (if hit { 1int } else { 0int }), n.len() - j,
        {
            if !eq_ci_exec(h[i + j], n[j]) {
                hit = false;
            } else {
                j += 1;
            }
        }
        if hit {
            assert(match_at(h@, n@, i as int));
            return true;
        }
        i += 1;
    }
    false
}

/// Whether two strings hold the same characters.
pub fn str_eq(a: &str, b: &str) -> (r: bool)
    ensures
        r == (a@ == b@),
{
    let la = a.unicode_len();
    let lb = b.unicode_len();
    if la != lb {
        return false;
    }
    let mut i: usize = 0;
    while i < la
        invariant
            la == a@.len(),
            la == b@.len(),
            i <= la,
            forall|j: int| 0 <= j < i ==> a@[j] == b@[j],
        decreases la - i,
    {
        if a.get_char(i) != b.get_char(i) {
            return false;
        }
        i += 1;
    }
    proof {
        assert(a@ =~= b@);
    }
    true
}

/// Converts a string to its character sequence.
pub fn chars_of(s: &str) -> (r: Vec<char>)
    ensures
        r@ == s@,
{
    let len = s.unicode_len();
    let mut out: Vec<char> = Vec::new();
    let mut i: usize = 0;
    while i < len
        invariant
            len == s@.len(),
            i <= len,
            out@ =~= s@.take(i as int),
        decreases len - i,
    {
        out.push(s.get_char(i));
        proof {
            assert(out@ =~= s@.take(i + 1 as int));
        }
        i += 1;
    }
    proof {
        assert(s@.take(len as int) =~= s@);
    }
    out
}

/// An angle bracket replaced by a space; any other character kept.
pub open spec fn strip_char(c: char) -> char {
    if c == '<' || c == '>' {
        ' '
    } else {
        c
    }
}

/// The `&nbsp;` token starts at position `i` of `s`.
pub open spec fn nbsp_at(s: Seq<char>, i: int) -> bool {
    &&& i + 6 <= s.len()
    &&& s[i] == '&'
    &&& s[i + 1] == 'n'
    &&& s[i + 2] == 'b'
    &&& s[i + 3] == 's'
    &&& s[i + 4] == 'p'
    &&& s[i + 5] == ';'
}

/// Memo content as it is matched: each `&nbsp;` token and each angle
/// bracket replaced by a space, left to right.
pub open spec fn strip_html(s: Seq<char>) -> Seq<char>
    decreases s.len(),
{
    if s.len() == 0 {
        Seq::empty()
    } else if nbsp_at(s, 0) {
        seq![' '] + strip_html(s.skip(6))
    } else {
        seq![strip_char(s[0])] + strip_html(s.skip(1))
    }
}

/// Applies `strip_html` to a character sequence.
pub fn strip_html_exec(v: &Vec<char>) -> (r: Vec<char>)
    ensures
        r@ == strip_html(v@),
{
    let mut out: Vec<char> = Vec::new();
    let mut i: usize = 0;
    proof {
        assert(v@.skip(0) =~= v@);
        assert(out@ + strip_html(v@) =~= strip_html(v@));
    }
    while i < v.len()
        invariant
            i <= v@.len(),
            strip_html(v@) == out@ + strip_html(v@.skip(i as int)),
        decreases v.len() - i,
    {
        if v.len() - i >= 6 && v[i] == '&' && v[i + 1] == 'n' && v[i + 2] == 'b' && v[i + 3] == 's'
            && v[i + 4] == 'p' && v[i + 5] == ';' {
            proof {
                let rest = v@.skip(i as int);
                assert(nbsp_at(rest, 0));
                assert(rest.skip(6) =~= v@.skip(i + 6));
                assert(strip_html(rest) == seq![' '] + strip_html(v@.skip(i + 6)));
            }
            out.push(' ');
            proof {
                assert(out@ + strip_html(v@.skip(i + 6)) =~= strip_html(v@));
            }
            i += 6;
        } else {
            let c = v[i];
            let sc: char = if c == '<' || c == '>' {
                ' '
            } else {
                c
            };
            proof {
                let rest = v@.skip(i as int);
                assert(rest.len() > 0);
                assert(rest[0] == v@[i as int]);
                assert(!nbsp_at(rest, 0)) by {
                    if nbsp_at(rest, 0) {
                        assert(rest[1] == v@[i + 1]);
                        assert(rest[2] == v@[i + 2]);
                        assert(rest[3] == v@[i + 3]);
                        assert(rest[4] == v@[i + 4]);
                        assert(rest[5] == v@[i + 5]);
                    }
                }
                assert(rest.skip(1) =~= v@.skip(i + 1));
                assert(strip_html(rest) == seq![strip_char(rest[0])] + strip_html(v@.skip(i + 1)));
                assert(sc == strip_char(v@[i as int]));
            }
            out.push(sc);
            proof {
                assert(out@ + strip_html(v@.skip(i + 1)) =~= strip_html(v@));
            }
            i += 1;
        }
    }
    proof {
        assert(v@.skip(v@.len() as int) =~= Seq::<char>::empty());
        assert(strip_html(v@) =~= out@);
    }
    out
}

} // verus!
