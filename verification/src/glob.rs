//! A small glob language over characters: `*` matches any run of
//! characters, `?` matches exactly one, anything else matches itself.

use vstd::prelude::*;
use vstd::string::StrSliceExecFns;

verus! {

/// Whether the glob pattern matches the whole text.
pub open spec fn spec_glob_match(p: Seq<char>, s: Seq<char>) -> bool
    decreases p.len(), s.len(),
{
    if p.len() == 0 {
        s.len() == 0
    } else if p[0] == '*' {
        spec_glob_match(p.drop_first(), s) || (s.len() > 0 && spec_glob_match(p, s.drop_first()))
    } else if s.len() == 0 {
        false
    } else {
        (p[0] == '?' || p[0] == s[0]) && spec_glob_match(p.drop_first(), s.drop_first())
    }
}

fn glob_match_at(p: &str, s: &str, i: usize, j: usize, pn: usize, sn: usize) -> (r: bool)
    requires
        i <= pn,
        j <= sn,
        pn == p@.len(),
        sn == s@.len(),
    ensures
        r == spec_glob_match(p@.skip(i as int), s@.skip(j as int)),
    decreases pn - i, sn - j,
{
    proof {
        assert(p@.skip(i as int).len() == pn - i);
        assert(s@.skip(j as int).len() == sn - j);
        if i < pn {
            assert(p@.skip(i as int)[0] == p@[i as int]);
            assert(p@.skip(i as int).drop_first() =~= p@.skip(i + 1));
        }
        if j < sn {
            assert(s@.skip(j as int)[0] == s@[j as int]);
            assert(s@.skip(j as int).drop_first() =~= s@.skip(j + 1));
        }
    }
    if i == pn {
        j == sn
    } else {
        let pc = p.get_char(i);
        if pc == '*' {
            if glob_match_at(p, s, i + 1, j, pn, sn) {
                true
            } else if j < sn {
                glob_match_at(p, s, i, j + 1, pn, sn)
            } else {
                false
            }
        } else if j == sn {
            false
        } else {
            let sc = s.get_char(j);
            if pc == '?' || pc == sc {
                glob_match_at(p, s, i + 1, j + 1, pn, sn)
            } else {
                false
            }
        }
    }
}

/// Whether the glob pattern matches the whole text.
pub fn glob_match(pattern: &str, text: &str) -> (r: bool)
    ensures
        r == spec_glob_match(pattern@, text@),
{
    let pn = pattern.unicode_len();
    let sn = text.unicode_len();
    let r = glob_match_at(pattern, text, 0, 0, pn, sn);
    proof {
        assert(pattern@.skip(0) =~= pattern@);
        assert(text@.skip(0) =~= text@);
    }
    r
}

} // verus!
