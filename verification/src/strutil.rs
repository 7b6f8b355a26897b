use vstd::prelude::*;

verus! {

/// Unicode whitespace (the White_Space property), the token separators
/// recognized inside a `References` value.
pub open spec fn is_ws(c: char) -> bool {
    ||| c == '\u{0009}'
    ||| c == '\u{000A}'
    ||| c == '\u{000B}'
    ||| c == '\u{000C}'
    ||| c == '\u{000D}'
    ||| c == ' '
    ||| c == '\u{0085}'
    ||| c == '\u{00A0}'
    ||| c == '\u{1680}'
    ||| c == '\u{2000}'
    ||| c == '\u{2001}'
    ||| c == '\u{2002}'
    ||| c == '\u{2003}'
    ||| c == '\u{2004}'
    ||| c == '\u{2005}'
    ||| c == '\u{2006}'
    ||| c == '\u{2007}'
    ||| c == '\u{2008}'
    ||| c == '\u{2009}'
    ||| c == '\u{200A}'
    ||| c == '\u{2028}'
    ||| c == '\u{2029}'
    ||| c == '\u{202F}'
    ||| c == '\u{205F}'
    ||| c == '\u{3000}'
}

/// Index of the first occurrence of `c` in `t`, if any.
pub open spec fn spec_find(t: Seq<char>, c: char) -> Option<int>
    decreases t.len(),
{
    if t.len() == 0 {
        Option::None
    } else if t[0] == c {
        Option::Some(0)
    } else {
        match spec_find(t.skip(1), c) {
            Option::None => Option::None,
            Option::Some(i) => Option::Some(i + 1),
        }
    }
}

/// Index of the last occurrence of `c` in `t`, if any.
pub open spec fn spec_rfind(t: Seq<char>, c: char) -> Option<int>
    decreases t.len(),
{
    if t.len() == 0 {
        Option::None
    } else if t[t.len() - 1] == c {
        Option::Some(t.len() - 1)
    } else {
        spec_rfind(t.drop_last(), c)
    }
}

/// Index of the first whitespace character of `t`, if any.
pub open spec fn spec_find_ws(t: Seq<char>) -> Option<int>
    decreases t.len(),
{
    if t.len() == 0 {
        Option::None
    } else if is_ws(t[0]) {
        Option::Some(0)
    } else {
        match spec_find_ws(t.skip(1)) {
            Option::None => Option::None,
            Option::Some(i) => Option::Some(i + 1),
        }
    }
}

/// Index of the first occurrence of the two-character separator `": "` in `t`, if any.
pub open spec fn spec_find_sep(t: Seq<char>) -> Option<int>
    decreases t.len(),
{
    if t.len() < 2 {
        Option::None
    } else if t[0] == ':' && t[1] == ' ' {
        Option::Some(0)
    } else {
        match spec_find_sep(t.skip(1)) {
            Option::None => Option::None,
            Option::Some(i) => Option::Some(i + 1),
        }
    }
}

/// `spec_find` returns the first occurrence, and `None` exactly when there is none.
pub proof fn lemma_spec_find(t: Seq<char>, c: char)
    ensures
        match spec_find(t, c) {
            Option::None => forall|i: int| 0 <= i < t.len() ==> t[i] != c,
            Option::Some(i) => 0 <= i < t.len() && t[i] == c && (forall|j: int|
                0 <= j < i ==> t[j] != c),
        },
    decreases t.len(),
{
    if t.len() == 0 {
    } else if t[0] == c {
    } else {
        lemma_spec_find(t.skip(1), c);
        match spec_find(t.skip(1), c) {
            Option::None => {
                assert forall|i: int| 0 <= i < t.len() implies t[i] != c by {
                    if i > 0 {
                        assert(t.skip(1)[i - 1] == t[i]);
                    }
                }
            },
            Option::Some(i) => {
                assert(t.skip(1)[i] == t[i + 1]);
                assert forall|j: int| 0 <= j < i + 1 implies t[j] != c by {
                    if j > 0 {
                        assert(t.skip(1)[j - 1] == t[j]);
                    }
                }
            },
        }
    }
}

/// `spec_rfind` returns the last occurrence, and `None` exactly when there is none.
pub proof fn lemma_spec_rfind(t: Seq<char>, c: char)
    ensures
        match spec_rfind(t, c) {
            Option::None => forall|i: int| 0 <= i < t.len() ==> t[i] != c,
            Option::Some(i) => 0 <= i < t.len() && t[i] == c && (forall|j: int|
                i < j < t.len() ==> t[j] != c),
        },
    decreases t.len(),
{
    if t.len() == 0 {
    } else if t[t.len() - 1] == c {
    } else {
        lemma_spec_rfind(t.drop_last(), c);
        assert forall|i: int| 0 <= i < t.len() - 1 implies t.drop_last()[i] == t[i] by {}
    }
}

/// `spec_find_ws` returns the first whitespace position, and `None` exactly when there is none.
pub proof fn lemma_spec_find_ws(t: Seq<char>)
    ensures
        match spec_find_ws(t) {
            Option::None => forall|i: int| 0 <= i < t.len() ==> !is_ws(t[i]),
            Option::Some(i) => 0 <= i < t.len() && is_ws(t[i]) && (forall|j: int|
                0 <= j < i ==> !is_ws(t[j])),
        },
    decreases t.len(),
{
    if t.len() == 0 {
    } else if is_ws(t[0]) {
    } else {
        lemma_spec_find_ws(t.skip(1));
        match spec_find_ws(t.skip(1)) {
            Option::None => {
                assert forall|i: int| 0 <= i < t.len() implies !is_ws(t[i]) by {
                    if i > 0 {
                        assert(t.skip(1)[i - 1] == t[i]);
                    }
                }
            },
            Option::Some(i) => {
                assert(t.skip(1)[i] == t[i + 1]);
                assert forall|j: int| 0 <= j < i + 1 implies !is_ws(t[j]) by {
                    if j > 0 {
                        assert(t.skip(1)[j - 1] == t[j]);
                    }
                }
            },
        }
    }
}

/// `spec_find_sep` returns the first `": "` position, and `None` exactly when there is none.
pub proof fn lemma_spec_find_sep(t: Seq<char>)
    ensures
        match spec_find_sep(t) {
            Option::None => forall|i: int|
                0 <= i < t.len() - 1 ==> !((#[trigger] t[i]) == ':' && t[i + 1] == ' '),
            Option::Some(i) => 0 <= i < t.len() - 1 && t[i] == ':' && t[i + 1] == ' ' && (
            forall|j: int| 0 <= j < i ==> !((#[trigger] t[j]) == ':' && t[j + 1] == ' ')),
        },
    decreases t.len(),
{
    if t.len() < 2 {
    } else if t[0] == ':' && t[1] == ' ' {
    } else {
        lemma_spec_find_sep(t.skip(1));
        match spec_find_sep(t.skip(1)) {
            Option::None => {
                assert forall|i: int| 0 <= i < t.len() - 1 implies !((#[trigger] t[i]) == ':' && t[i
                    + 1] == ' ') by {
                    if i > 0 {
                        assert(t.skip(1)[i - 1] == t[i]);
                        assert(t.skip(1)[i] == t[i + 1]);
                    }
                }
            },
            Option::Some(i) => {
                assert(t.skip(1)[i] == t[i + 1]);
                assert(t.skip(1)[i + 1] == t[i + 2]);
                assert forall|j: int| 0 <= j < i + 1 implies !((#[trigger] t[j]) == ':' && t[j + 1]
                    == ' ') by {
                    if j > 0 {
                        assert(t.skip(1)[j - 1] == t[j]);
                        assert(t.skip(1)[j] == t[j + 1]);
                    }
                }
            },
        }
    }
}

/// Whether `c` is Unicode whitespace; the executable twin of `is_ws`.
pub fn char_is_ws(c: char) -> (r: bool)
    ensures
        r == is_ws(c),
{
    c == '\u{0009}' || c == '\u{000A}' || c == '\u{000B}' || c == '\u{000C}' || c == '\u{000D}'
        || c == ' ' || c == '\u{0085}' || c == '\u{00A0}' || c == '\u{1680}' || c == '\u{2000}'
        || c == '\u{2001}' || c == '\u{2002}' || c == '\u{2003}' || c == '\u{2004}'
        || c == '\u{2005}' || c == '\u{2006}' || c == '\u{2007}' || c == '\u{2008}'
        || c == '\u{2009}' || c == '\u{200A}' || c == '\u{2028}' || c == '\u{2029}'
        || c == '\u{202F}' || c == '\u{205F}' || c == '\u{3000}'
}

/// Position of the first occurrence of `c` in `s`, if any.
pub fn find_char(s: &str, c: char) -> (r: Option<usize>)
    ensures
        match r {
            Option::None => spec_find(s@, c) is None,
            Option::Some(k) => spec_find(s@, c) == Option::Some(k as int),
        },
{
    let n = s.unicode_len();
    let mut k: usize = 0;
    while k < n
        invariant
            n == s@.len(),
            k <= n,
            forall|j: int| 0 <= j < k ==> s@[j] != c,
        decreases n - k,
    {
        if s.get_char(k) == c {
            proof {
                lemma_spec_find(s@, c);
            }
            return Option::Some(k);
        }
        k += 1;
    }
    proof {
        lemma_spec_find(s@, c);
    }
    Option::None
}

/// Position of the last occurrence of `c` in `s`, if any.
pub fn rfind_char(s: &str, c: char) -> (r: Option<usize>)
    ensures
        match r {
            Option::None => spec_rfind(s@, c) is None,
            Option::Some(k) => spec_rfind(s@, c) == Option::Some(k as int),
        },
{
    let n = s.unicode_len();
    let mut k: usize = n;
    while k > 0
        invariant
            n == s@.len(),
            k <= n,
            forall|j: int| k <= j < n ==> s@[j] != c,
        decreases k,
    {
        k -= 1;
        if s.get_char(k) == c {
            proof {
                lemma_spec_rfind(s@, c);
            }
            return Option::Some(k);
        }
    }
    proof {
        lemma_spec_rfind(s@, c);
    }
    Option::None
}

/// Position of the first whitespace character of `s`, if any.
pub fn find_ws(s: &str) -> (r: Option<usize>)
    ensures
        match r {
            Option::None => spec_find_ws(s@) is None,
            Option::Some(k) => spec_find_ws(s@) == Option::Some(k as int),
        },
{
    let n = s.unicode_len();
    let mut k: usize = 0;
    while k < n
        invariant
            n == s@.len(),
            k <= n,
            forall|j: int| 0 <= j < k ==> !is_ws(s@[j]),
        decreases n - k,
    {
        if char_is_ws(s.get_char(k)) {
            proof {
                lemma_spec_find_ws(s@);
            }
            return Option::Some(k);
        }
        k += 1;
    }
    proof {
        lemma_spec_find_ws(s@);
    }
    Option::None
}

/// Position of the first `": "` separator in `s`, if any.
pub fn find_sep(s: &str) -> (r: Option<usize>)
    ensures
        match r {
            Option::None => spec_find_sep(s@) is None,
            Option::Some(k) => spec_find_sep(s@) == Option::Some(k as int),
        },
{
    let n = s.unicode_len();
    if n < 2 {
        proof {
            lemma_spec_find_sep(s@);
        }
        return Option::None;
    }
    let mut k: usize = 0;
    while k < n - 1
        invariant
            n == s@.len(),
            2 <= n,
            k <= n,
            forall|j: int| 0 <= j < k ==> !((#[trigger] s@[j]) == ':' && s@[j + 1] == ' '),
        decreases n - k,
    {
        if s.get_char(k) == ':' && s.get_char(k + 1) == ' ' {
            proof {
                lemma_spec_find_sep(s@);
            }
            return Option::Some(k);
        }
        k += 1;
    }
    proof {
        lemma_spec_find_sep(s@);
    }
    Option::None
}

/// Whether two string slices hold the same characters.
pub fn str_eq(a: &str, b: &str) -> (r: bool)
    ensures
        r == (a@ == b@),
{
    let la = a.unicode_len();
    let lb = b.unicode_len();
    if la != lb {
        return false;
    }
    let mut k: usize = 0;
    while k < la
        invariant
            la == a@.len(),
            la == b@.len(),
            k <= la,
            forall|j: int| 0 <= j < k ==> a@[j] == b@[j],
        decreases la - k,
    {
        if a.get_char(k) != b.get_char(k) {
            return false;
        }
        k += 1;
    }
    proof {
        assert(a@ =~= b@);
    }
    true
}

} // verus!
