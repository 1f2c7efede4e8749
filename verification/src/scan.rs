//! Finding the first occurrence of a pattern in a sequence.
//!
//! A BUFR stream may be preceded by arbitrary framing bytes, so the
//! decoder scans for the ASCII signature "BUFR"; the metadata tables
//! split range keys at a separator. Both reduce to one operation:
//! the least offset at which a pattern occurs.

use vstd::prelude::*;

verus! {

/// True iff `p` occurs in `s` at offset `i`.
pub open spec fn match_at<T>(s: Seq<T>, p: Seq<T>, i: int) -> bool {
    0 <= i && i + p.len() <= s.len() && s.subrange(i, i + p.len()) == p
}

/// The least offset at which `p` occurs in `s`, if any. The empty
/// pattern occurs at offset 0.
pub open spec fn find_first<T>(s: Seq<T>, p: Seq<T>) -> Option<int>
    decreases s.len(),
{
    if p.len() == 0 {
        Option::Some(0)
    } else if s.len() < p.len() {
        Option::None
    } else if s.take(p.len() as int) == p {
        Option::Some(0)
    } else {
        match find_first(s.drop_first(), p) {
            Option::Some(i) => Option::Some(i + 1),
            Option::None => Option::None,
        }
    }
}

/// `find_first` names the least offset at which the pattern matches,
/// and yields nothing exactly when it matches nowhere.
pub proof fn lemma_find_first_characterises<T>(s: Seq<T>, p: Seq<T>)
    ensures
        match find_first(s, p) {
            Option::Some(i) => match_at(s, p, i) && forall|j: int| 0 <= j < i ==> !match_at(s, p, j),
            Option::None => forall|j: int| !match_at(s, p, j),
        },
    decreases s.len(),
{
    if p.len() == 0 {
        assert(s.subrange(0, 0) =~= p);
    } else if s.len() < p.len() {
        assert forall|j: int| !match_at(s, p, j) by {}
    } else if s.take(p.len() as int) == p {
        assert(s.subrange(0, p.len() as int) == s.take(p.len() as int));
    } else {
        lemma_find_first_characterises(s.drop_first(), p);
        assert forall|j: int| 1 <= j implies (match_at(s.drop_first(), p, j - 1) <==> match_at(
            s,
            p,
            j,
        )) by {
            if match_at(s.drop_first(), p, j - 1) {
                assert(s.subrange(j, j + p.len() as int) =~= s.drop_first().subrange(
                    j - 1,
                    j - 1 + p.len() as int,
                ));
            }
            if match_at(s, p, j) {
                assert(s.drop_first().subrange(j - 1, j - 1 + p.len() as int) =~= s.subrange(
                    j,
                    j + p.len() as int,
                ));
            }
        }
        assert(!match_at(s, p, 0)) by {
            if match_at(s, p, 0) {
                assert(s.subrange(0, p.len() as int) =~= s.take(p.len() as int));
            }
        }
    }
}

/// The least offset at which the byte pattern `p` occurs in `s`.
pub fn find_bytes(s: &[u8], p: &[u8]) -> (r: Option<usize>)
    ensures
        match r {
            Some(i) => find_first(s@, p@) == Option::Some(i as int),
            None => find_first(s@, p@) == Option::None::<int>,
        },
{
    proof {
        lemma_find_first_characterises(s@, p@);
    }
    if p.len() == 0 {
        return Some(0);
    }
    if p.len() > s.len() {
        return None;
    }
    let mut i: usize = 0;
    while i <= s.len() - p.len()
        invariant
            1 <= p@.len() <= s@.len(),
            i <= s@.len(),
            forall|j: int| 0 <= j < i ==> !match_at(s@, p@, j),
        decreases s@.len() - i,
    {
        let mut j: usize = 0;
        let mut hit = true;
        while hit && j < p.len()
            invariant
                0 <= i,
                s@.len() <= usize::MAX,
                i + p@.len() <= s@.len(),
                j <= p@.len(),
                hit ==> forall|t: int| 0 <= t < j ==> s@[i + t] == p@[t],
                !hit ==> !match_at(s@, p@, i as int),
            decreases (if hit { 1int } else { 0int }), p@.len() - j,
        {
            assert(i + j < s@.len());
            if s[i + j] != p[j] {
                hit = false;
                proof {
                    assert(s@.subrange(i as int, i + p@.len())[j as int] != p@[j as int]);
                    assert(!match_at(s@, p@, i as int));
                }
            } else {
                j = j + 1;
            }
        }
        if hit {
            proof {
                assert(s@.subrange(i as int, i + p@.len()) =~= p@);
                assert(match_at(s@, p@, i as int));
                lemma_find_first_characterises(s@, p@);
                match find_first(s@, p@) {
                    Option::Some(t) => {
                        assert(!(t < i));
                        assert(!(t > i));
                    },
                    Option::None => {
                        assert(false);
                    },
                }
            }
            return Some(i);
        }
        i = i + 1;
    }
    proof {
        assert forall|j: int| !match_at(s@, p@, j) by {
            if j >= 0 && j + p@.len() <= s@.len() {
                assert(j < i);
            }
        }
        lemma_find_first_characterises(s@, p@);
    }
    None
}

/// The least offset at which the pattern `p` occurs in the characters
/// of `s`.
pub fn find_chars(s: &str, p: &str) -> (r: Option<usize>)
    ensures
        match r {
            Some(i) => find_first(s@, p@) == Option::Some(i as int),
            None => find_first(s@, p@) == Option::None::<int>,
        },
{
    proof {
        lemma_find_first_characterises(s@, p@);
    }
    let slen = s.unicode_len();
    let plen = p.unicode_len();
    if plen == 0 {
        return Some(0);
    }
    if plen > slen {
        return None;
    }
    let mut i: usize = 0;
    while i <= slen - plen
        invariant
            slen == s@.len(),
            plen == p@.len(),
            1 <= p@.len() <= s@.len(),
            i <= s@.len(),
            forall|j: int| 0 <= j < i ==> !match_at(s@, p@, j),
        decreases s@.len() - i,
    {
        let mut j: usize = 0;
        let mut hit = true;
        while hit && j < plen
            invariant
                slen == s@.len(),
                plen == p@.len(),
                0 <= i,
                i + p@.len() <= s@.len(),
                j <= p@.len(),
                hit ==> forall|t: int| 0 <= t < j ==> s@[i + t] == p@[t],
                !hit ==> !match_at(s@, p@, i as int),
            decreases (if hit { 1int } else { 0int }), p@.len() - j,
        {
            assert(i + j < s@.len());
            if s.get_char(i + j) != p.get_char(j) {
                hit = false;
                proof {
                    assert(s@.subrange(i as int, i + p@.len())[j as int] != p@[j as int]);
                    assert(!match_at(s@, p@, i as int));
                }
            } else {
                j = j + 1;
            }
        }
        if hit {
            proof {
                assert(s@.subrange(i as int, i + p@.len()) =~= p@);
                assert(match_at(s@, p@, i as int));
                lemma_find_first_characterises(s@, p@);
                match find_first(s@, p@) {
                    Option::Some(t) => {
                        assert(!(t < i));
                        assert(!(t > i));
                    },
                    Option::None => {
                        assert(false);
                    },
                }
            }
            return Some(i);
        }
        i = i + 1;
    }
    proof {
        assert forall|j: int| !match_at(s@, p@, j) by {
            if j >= 0 && j + p@.len() <= s@.len() {
                assert(j < i);
            }
        }
        lemma_find_first_characterises(s@, p@);
    }
    None
}

} // verus!
