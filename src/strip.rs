//! Stripping runs of characters from either end of a text.
use vstd::prelude::*;

verus! {

/// Unicode `White_Space`, the characters `str::trim` removes.
pub open spec fn white_space(c: char) -> bool {
    ||| '\u{9}' <= c <= '\u{d}'
    ||| c == ' '
    ||| c == '\u{85}'
    ||| c == '\u{a0}'
    ||| c == '\u{1680}'
    ||| '\u{2000}' <= c <= '\u{200a}'
    ||| c == '\u{2028}'
    ||| c == '\u{2029}'
    ||| c == '\u{202f}'
    ||| c == '\u{205f}'
    ||| c == '\u{3000}'
}

/// Which characters a strip removes.
#[derive(Clone, Copy, Debug, PartialEq, Eq, Structural)]
pub enum Strip {
    WhiteSpace,
    LetterV,
    Quote,
}

pub open spec fn stripped_by(k: Strip, c: char) -> bool {
    match k {
        Strip::WhiteSpace => white_space(c),
        Strip::LetterV => c == 'v',
        Strip::Quote => c == '"',
    }
}

/// `s` without its longest prefix of characters of class `k`.
pub open spec fn strip_start(s: Seq<char>, k: Strip) -> Seq<char>
    decreases s.len(),
{
    if s.len() > 0 && stripped_by(k, s[0]) {
        strip_start(s.drop_first(), k)
    } else {
        s
    }
}

/// `s` without its longest suffix of characters of class `k`.
pub open spec fn strip_end(s: Seq<char>, k: Strip) -> Seq<char>
    decreases s.len(),
{
    if s.len() > 0 && stripped_by(k, s.last()) {
        strip_end(s.drop_last(), k)
    } else {
        s
    }
}

/// `s` stripped of class `k` at both ends.
pub open spec fn strip_both(s: Seq<char>, k: Strip) -> Seq<char> {
    strip_end(strip_start(s, k), k)
}

fn is_stripped(k: Strip, c: char) -> (r: bool)
    ensures
        r == stripped_by(k, c),
{
    match k {
        Strip::WhiteSpace => {
            ('\u{9}' <= c && c <= '\u{d}') || c == ' ' || c == '\u{85}' || c == '\u{a0}' || c
                == '\u{1680}' || ('\u{2000}' <= c && c <= '\u{200a}') || c == '\u{2028}' || c
                == '\u{2029}' || c == '\u{202f}' || c == '\u{205f}' || c == '\u{3000}'
        },
        Strip::LetterV => c == 'v',
        Strip::Quote => c == '"',
    }
}

/// Removes the leading run of class `k`.
pub fn trim_start(s: &str, k: Strip) -> (r: String)
    ensures
        r@ == strip_start(s@, k),
{
    let n = s.unicode_len();
    let mut i: usize = 0;
    assert(s@.subrange(0, n as int) =~= s@);
    while i < n && is_stripped(k, s.get_char(i))
        invariant
            n == s@.len(),
            i <= n,
            strip_start(s@, k) == strip_start(s@.subrange(i as int, n as int), k),
        decreases n - i,
    {
        proof {
            let t = s@.subrange(i as int, n as int);
            assert(t.drop_first() =~= s@.subrange(i + 1, n as int));
        }
        i = i + 1;
    }
    proof {
        assert(s@.subrange(i as int, n as int) == strip_start(s@, k));
    }
    let rest = s.substring_char(i, n);
    String::from_str(rest)
}

/// Removes the trailing run of class `k`.
pub fn trim_end(s: &str, k: Strip) -> (r: String)
    ensures
        r@ == strip_end(s@, k),
{
    let n = s.unicode_len();
    let mut j: usize = n;
    assert(s@.subrange(0, n as int) =~= s@);
    while j > 0 && is_stripped(k, s.get_char(j - 1))
        invariant
            n == s@.len(),
            j <= n,
            strip_end(s@, k) == strip_end(s@.subrange(0, j as int), k),
        decreases j,
    {
        proof {
            let t = s@.subrange(0, j as int);
            assert(t.drop_last() =~= s@.subrange(0, j - 1));
        }
        j = j - 1;
    }
    proof {
        assert(s@.subrange(0, j as int) == strip_end(s@, k));
    }
    let rest = s.substring_char(0, j);
    String::from_str(rest)
}

/// Removes runs of class `k` at both ends.
pub fn trim_both(s: &str, k: Strip) -> (r: String)
    ensures
        r@ == strip_both(s@, k),
{
    let a = trim_start(s, k);
    trim_end(a.as_str(), k)
}

} // verus!
